//! The shared session state: the command being assembled from written
//! chunks, the last response, and the record store.

use vstd::prelude::*;
use vstd::string::*;
use vstd::utf8::*;
use crate::command::{
    created_ids, execute, handle_command, lemma_del_twice, lemma_ids_follow_successful_adds, run,
};
use crate::text::{parse_uint, split_lines};
use crate::store::{empty_store, RecordStore, StoreView};
use crate::text::{decode_text, utf8_text};

verus! {

/// The errors that abort a read or a write call.
#[derive(Clone, Copy, Debug, PartialEq, Eq, Structural)]
pub enum DeviceError {
    /// The written bytes are not valid UTF-8.
    InvalidEncoding,
    /// Another caller holds the state; try again.
    Unavailable,
    /// The state has not been created yet, or was torn down.
    NotInitialized,
}

/// Whether `k` is the position of the first zero byte of `b`.
pub open spec fn is_first_zero(b: Seq<u8>, k: int) -> bool {
    &&& 0 <= k < b.len()
    &&& b[k] == 0
    &&& forall|j: int| 0 <= j < k ==> b[j] != 0
}

/// The position of the first zero byte of `b`, or its length where it has none.
pub open spec fn zero_pos(b: Seq<u8>) -> int {
    if exists|k: int| is_first_zero(b, k) {
        choose|k: int| is_first_zero(b, k)
    } else {
        b.len() as int
    }
}

/// The bytes of a chunk that belong to the command: those before its first
/// zero byte.
pub open spec fn command_bytes(b: Seq<u8>) -> Seq<u8> {
    b.subrange(0, zero_pos(b))
}

/// Whether a chunk ends the command, that is holds a zero byte.
pub open spec fn ends_command(b: Seq<u8>) -> bool {
    zero_pos(b) < b.len()
}

/// How many bytes of a chunk a write takes: through its first zero byte,
/// or all of them where it has none; what follows the zero is discarded.
pub open spec fn consumed(b: Seq<u8>) -> int {
    if ends_command(b) {
        zero_pos(b) + 1
    } else {
        b.len() as int
    }
}

/// The mathematical value of a `Data`.
pub struct DataView {
    pub request: Seq<char>,
    pub response: Seq<char>,
    pub store: StoreView,
}

/// The state after appending `text` to the pending command of `d`; where
/// `complete`, the command is then carried out and the pending one cleared.
pub open spec fn push_spec(d: DataView, text: Seq<char>, complete: bool) -> DataView {
    let request = d.request + text;
    if complete {
        let (store, response) = execute(d.store, request);
        DataView { request: Seq::empty(), response, store }
    } else {
        DataView { request, response: d.response, store: d.store }
    }
}

/// The state after writing the chunk `b` to `d`, or `None` where the
/// chunk's command bytes are not valid UTF-8 (the state is then unchanged).
pub open spec fn write_spec(d: DataView, b: Seq<u8>) -> Option<DataView> {
    match utf8_text(command_bytes(b)) {
        None => None,
        Some(text) => Some(push_spec(d, text, ends_command(b))),
    }
}

/// The text that the chunk `b` adds to the pending command, and whether it
/// ends the command; `None` where its command bytes are not valid UTF-8.
pub fn decode_chunk(b: &[u8]) -> (r: Option<(String, bool)>)
    ensures
        match utf8_text(command_bytes(b@)) {
            Some(text) => r matches Some((s, done)) && s@ == text && done == ends_command(b@),
            None => r is None,
        },
{
    let (data, is_complete) = read_until_zero(b);
    match decode_text(data) {
        Some(s) => Some((s, is_complete)),
        None => None,
    }
}

/// What a read at `offset` with room for `capacity` bytes returns: the
/// response's bytes from `offset` on, as many as fit, then a newline if room
/// is left; nothing at all where `offset` is past the end.
pub open spec fn read_spec(response: Seq<char>, offset: nat, capacity: nat) -> Seq<u8> {
    let bytes = encode_utf8(response);
    if offset > bytes.len() {
        Seq::empty()
    } else {
        let avail = bytes.subrange(offset as int, bytes.len() as int);
        if avail.len() >= capacity {
            avail.subrange(0, capacity as int)
        } else {
            avail.push(10u8)
        }
    }
}

/// Splits a written chunk at its first zero byte: the bytes before it, and
/// whether there was one.
pub fn read_until_zero(buf: &[u8]) -> (r: (Vec<u8>, bool))
    ensures
        r.0@ == command_bytes(buf@),
        r.1 == ends_command(buf@),
{
    let mut data: Vec<u8> = Vec::new();
    let mut i: usize = 0;
    while i < buf.len()
        invariant
            i <= buf@.len(),
            data@ == buf@.subrange(0, i as int),
            forall|j: int| 0 <= j < i ==> buf@[j] != 0,
        decreases buf.len() - i,
    {
        let x = buf[i];
        if x == 0 {
            proof {
                assert(is_first_zero(buf@, i as int));
                let k = zero_pos(buf@);
                assert(is_first_zero(buf@, k));
                if k < i {
                    assert(buf@[k] != 0);
                } else if k > i {
                    assert(buf@[i as int] != 0);
                }
            }
            return (data, true);
        }
        data.push(x);
        i = i + 1;
        assert(data@ =~= buf@.subrange(0, i as int));
    }
    proof {
        assert(!exists|k: int| is_first_zero(buf@, k));
        assert(buf@.subrange(0, buf@.len() as int) =~= buf@);
    }
    (data, false)
}

/// The number of bytes of the chunk `b` that a write takes.
pub fn consumed_len(b: &[u8]) -> (r: usize)
    ensures
        r == consumed(b@),
{
    let n = b.len();
    let (data, is_complete) = read_until_zero(b);
    if is_complete {
        assert(exists|k: int| is_first_zero(b@, k));
        assert(is_first_zero(b@, zero_pos(b@)));
        assert(data@.len() == zero_pos(b@));
        data.len() + 1
    } else {
        n
    }
}

/// The session state: the command being assembled, the last response, and
/// the record store.
pub struct Data {
    request: String,
    response: String,
    store: RecordStore,
}

impl View for Data {
    type V = DataView;

    closed spec fn view(&self) -> DataView {
        DataView { request: self.request@, response: self.response@, store: self.store@ }
    }
}

impl Data {
    #[verifier::type_invariant]
    closed spec fn inv(&self) -> bool {
        self.store@.wf()
    }

    /// A fresh state: no pending command, an empty response, an empty store.
    pub fn new() -> (r: Data)
        ensures
            r@ == (DataView { request: Seq::empty(), response: Seq::empty(), store: empty_store() }),
    {
        Data { request: String::new(), response: String::new(), store: RecordStore::new() }
    }

    /// The command text assembled so far.
    pub fn request(&self) -> (r: &str)
        ensures
            r@ == self@.request,
    {
        self.request.as_str()
    }

    /// The last response.
    pub fn response(&self) -> (r: &str)
        ensures
            r@ == self@.response,
    {
        self.response.as_str()
    }

    /// The record store.
    pub fn store(&self) -> (r: &RecordStore)
        ensures
            r@ == self@.store,
    {
        &self.store
    }

    /// Carries out the pending command: its response replaces the last one.
    pub fn handle_request(&mut self)
        ensures
            final(self)@.request == old(self)@.request,
            (final(self)@.store, final(self)@.response) == execute(old(self)@.store, old(self)@.request),
    {
        proof { use_type_invariant(&*self); }
        let mut store = RecordStore::new();
        core::mem::swap(&mut store, &mut self.store);
        let response = handle_command(&mut store, self.request.as_str());
        self.store = store;
        self.response = response;
    }

    /// Appends the command bytes of the chunk `bytes` (those before its first
    /// zero byte) to the pending command; where the chunk holds a zero byte,
    /// the command is carried out and the pending command cleared.
    pub fn write(&mut self, bytes: &[u8]) -> (r: Result<(), DeviceError>)
        ensures
            match write_spec(old(self)@, bytes@) {
                Some(d) => r is Ok && final(self)@ == d,
                None => r == Err::<(), DeviceError>(DeviceError::InvalidEncoding) && final(self)@ == old(self)@,
            },
    {
        match decode_chunk(bytes) {
            Some((text, is_complete)) => {
                self.push_text(text.as_str(), is_complete);
                Ok(())
            },
            None => Err(DeviceError::InvalidEncoding),
        }
    }

    /// Appends `text` to the pending command; where `complete`, carries the
    /// command out and clears the pending one.
    pub fn push_text(&mut self, text: &str, complete: bool)
        ensures
            final(self)@ == push_spec(old(self)@, text@, complete),
    {
        proof { use_type_invariant(&*self); }
        let mut request = String::new();
        core::mem::swap(&mut request, &mut self.request);
        request.append(text);
        self.request = request;
        if complete {
            self.handle_request();
            self.request = String::new();
        }
    }

    /// The bytes that a read at `offset` with room for `capacity` bytes
    /// returns.
    pub fn read_response(&self, offset: u64, capacity: usize) -> (r: Vec<u8>)
        ensures
            r@ == read_spec(self@.response, offset as nat, capacity as nat),
    {
        let bytes = self.response.as_str().as_bytes();
        let mut out: Vec<u8> = Vec::new();
        if offset > bytes.len() as u64 {
            return out;
        }
        let start = offset as usize;
        let mut i: usize = start;
        while i < bytes.len() && out.len() < capacity
            invariant
                start <= i <= bytes@.len(),
                out@ == bytes@.subrange(start as int, i as int),
                out@.len() <= capacity,
            decreases bytes.len() - i,
        {
            out.push(bytes[i]);
            i = i + 1;
            assert(out@ =~= bytes@.subrange(start as int, i as int));
        }
        if out.len() < capacity {
            out.push(10u8);
        }
        out
    }
}


/// Decoding valid UTF-8 commutes with concatenation.
pub proof fn lemma_decode_concat(a: Seq<u8>, b: Seq<u8>)
    requires
        valid_utf8(a),
        valid_utf8(b),
    ensures
        valid_utf8(a + b),
        decode_utf8(a + b) == decode_utf8(a) + decode_utf8(b),
    decreases a.len(),
{
    valid_utf8_concat(a, b);
    if a.len() == 0 {
        assert(a + b =~= b);
        assert(decode_utf8(a) + decode_utf8(b) =~= decode_utf8(b));
    } else {
        let rest = pop_first_scalar(a);
        assert(length_of_first_scalar(a) >= 1);
        assert(valid_first_scalar(a + b));
        assert(decode_first_scalar(a + b) == decode_first_scalar(a));
        assert(pop_first_scalar(a + b) =~= rest + b);
        lemma_decode_concat(rest, b);
        assert(decode_utf8(a + b) =~= decode_utf8(a) + decode_utf8(b));
    }
}

/// Where `k` is the first zero byte of `b`, it is what `zero_pos` gives.
pub proof fn lemma_zero_pos(b: Seq<u8>, k: int)
    requires
        is_first_zero(b, k),
    ensures
        zero_pos(b) == k,
{
    let j = zero_pos(b);
    assert(is_first_zero(b, j));
    if j < k {
        assert(b[j] != 0);
    } else if j > k {
        assert(b[k] != 0);
    }
}

/// Where `b` holds no zero byte, all of it belongs to the command.
pub proof fn lemma_zero_pos_none(b: Seq<u8>)
    requires
        forall|j: int| 0 <= j < b.len() ==> b[j] != 0,
    ensures
        zero_pos(b) == b.len(),
        command_bytes(b) == b,
        !ends_command(b),
{
    assert(!exists|k: int| is_first_zero(b, k));
    assert(b.subrange(0, b.len() as int) =~= b);
}

/// The chunks written one after another.
pub open spec fn concat_chunks(chunks: Seq<Seq<u8>>) -> Seq<u8>
    decreases chunks.len(),
{
    if chunks.len() == 0 {
        Seq::empty()
    } else {
        concat_chunks(chunks.drop_last()) + chunks.last()
    }
}

/// The state after writing `chunks` in order, or `None` where one fails.
pub open spec fn write_all(d: DataView, chunks: Seq<Seq<u8>>) -> Option<DataView>
    decreases chunks.len(),
{
    if chunks.len() == 0 {
        Some(d)
    } else {
        match write_all(d, chunks.drop_last()) {
            Some(prev) => write_spec(prev, chunks.last()),
            None => None,
        }
    }
}

proof fn lemma_write_prefix(d: DataView, chunks: Seq<Seq<u8>>)
    requires
        forall|i: int, j: int| 0 <= i < chunks.len() && 0 <= j < chunks[i].len() ==> #[trigger] chunks[i][j] != 0,
        forall|i: int| 0 <= i < chunks.len() ==> valid_utf8(#[trigger] chunks[i]),
    ensures
        valid_utf8(concat_chunks(chunks)),
        forall|j: int| 0 <= j < concat_chunks(chunks).len() ==> concat_chunks(chunks)[j] != 0,
        write_all(d, chunks) == Some(DataView {
            request: d.request + decode_utf8(concat_chunks(chunks)),
            response: d.response,
            store: d.store,
        }),
    decreases chunks.len(),
{
    if chunks.len() == 0 {
        assert(d.request + decode_utf8(Seq::<u8>::empty()) =~= d.request);
    } else {
        let init = chunks.drop_last();
        let last = chunks.last();
        assert forall|i: int, j: int| 0 <= i < init.len() && 0 <= j < init[i].len() implies #[trigger] init[i][j] != 0 by {
            assert(init[i] == chunks[i]);
        }
        assert forall|i: int| 0 <= i < init.len() implies valid_utf8(#[trigger] init[i]) by {
            assert(init[i] == chunks[i]);
        }
        lemma_write_prefix(d, init);
        let c = concat_chunks(init);
        assert(valid_utf8(chunks[chunks.len() - 1]));
        assert forall|j: int| 0 <= j < last.len() implies last[j] != 0 by {
            assert(chunks[chunks.len() - 1][j] != 0);
        }
        lemma_zero_pos_none(last);
        lemma_decode_concat(c, last);
        assert forall|j: int| 0 <= j < (c + last).len() implies (c + last)[j] != 0 by {
            if j >= c.len() {
                assert((c + last)[j] == last[j - c.len()]);
            }
        }
        assert(d.request + decode_utf8(c) + decode_utf8(last) =~= d.request + decode_utf8(c + last));
    }
}

/// Writing a command in fragments, cut at any byte boundaries with the one
/// zero byte last, leaves the same state as writing it in one chunk; this
/// holds where each fragment's bytes are valid UTF-8 by themselves.
pub proof fn lemma_fragmented_write(d: DataView, chunks: Seq<Seq<u8>>)
    requires
        chunks.len() > 0,
        chunks.last().len() > 0,
        chunks.last().last() == 0,
        forall|i: int, j: int| 0 <= i < chunks.len() && 0 <= j < chunks[i].len() && #[trigger] chunks[i][j] == 0
            ==> i == chunks.len() - 1 && j == chunks[i].len() - 1,
        forall|i: int| 0 <= i < chunks.len() - 1 ==> valid_utf8(#[trigger] chunks[i]),
        valid_utf8(chunks.last().drop_last()),
    ensures
        write_all(d, chunks) == write_spec(d, concat_chunks(chunks)),
{
    let n = chunks.len() - 1;
    let init = chunks.drop_last();
    let last = chunks.last();
    assert forall|i: int, j: int| 0 <= i < init.len() && 0 <= j < init[i].len() implies #[trigger] init[i][j] != 0 by {
        assert(init[i] == chunks[i]);
        if chunks[i][j] == 0 {
            assert(i == n);
        }
    }
    assert forall|i: int| 0 <= i < init.len() implies valid_utf8(#[trigger] init[i]) by {
        assert(init[i] == chunks[i]);
    }
    lemma_write_prefix(d, init);
    let c = concat_chunks(init);
    let tail = last.drop_last();
    assert forall|j: int| 0 <= j < last.len() - 1 implies last[j] != 0 by {
        if last[j] == 0 {
            assert(chunks[n][j] == 0);
        }
    }
    lemma_zero_pos(last, last.len() - 1);
    assert(command_bytes(last) =~= tail);
    let flat = c + last;
    assert(concat_chunks(chunks) == flat);
    assert(is_first_zero(flat, flat.len() - 1)) by {
        assert forall|j: int| 0 <= j < flat.len() - 1 implies flat[j] != 0 by {
            if j >= c.len() {
                assert(flat[j] == last[j - c.len()]);
            }
        }
    }
    lemma_zero_pos(flat, flat.len() - 1);
    assert(command_bytes(flat) =~= c + tail);
    lemma_decode_concat(c, tail);
    assert(d.request + decode_utf8(c) + decode_utf8(tail) =~= d.request + decode_utf8(c + tail));
}

/// A read at an offset past the end of the response yields no bytes, and
/// is no error; at the end itself it yields none only where the caller
/// leaves no room, for a newline follows the response otherwise.
pub proof fn lemma_read_past_end(response: Seq<char>, offset: nat, capacity: nat)
    requires
        offset > encode_utf8(response).len() || (offset == encode_utf8(response).len() && capacity == 0),
    ensures
        read_spec(response, offset, capacity) == Seq::<u8>::empty(),
{
    let bytes = encode_utf8(response);
    if offset == bytes.len() {
        assert(bytes.subrange(offset as int, bytes.len() as int).subrange(0, 0) =~= Seq::<u8>::empty());
    }
}

/// Writing the same complete `DEL` command twice, each time as one chunk
/// ending in its zero byte, from a state with no pending command: both
/// writes succeed, and the second responds "Matching user not found" and
/// changes nothing else.
pub proof fn lemma_del_twice_write(d: DataView, bytes: Seq<u8>, id_text: Seq<char>)
    requires
        d.store.wf(),
        d.request.len() == 0,
        forall|j: int| 0 <= j < bytes.len() ==> bytes[j] != 0,
        valid_utf8(bytes),
        split_lines(decode_utf8(bytes)) == seq!["DEL"@, id_text],
        parse_uint(id_text, u64::MAX as nat) is Ok,
    ensures
        ({
            let chunk = bytes.push(0u8);
            &&& write_spec(d, chunk) is Some
            &&& write_spec(write_spec(d, chunk)->0, chunk) == Some(DataView {
                request: Seq::empty(),
                response: "Matching user not found"@,
                store: write_spec(d, chunk)->0.store,
            })
        }),
{
    let chunk = bytes.push(0u8);
    let cmd = decode_utf8(bytes);
    assert(is_first_zero(chunk, bytes.len() as int));
    lemma_zero_pos(chunk, bytes.len() as int);
    assert(command_bytes(chunk) =~= bytes);
    assert(d.request + cmd =~= cmd);
    assert(Seq::<char>::empty() + cmd =~= cmd);
    lemma_del_twice(d.store, cmd, id_text);
}

/// Whether `c` is one complete command as a chunk: valid UTF-8 ending in
/// its only zero byte.
pub open spec fn is_command_chunk(c: Seq<u8>) -> bool {
    &&& c.len() > 0
    &&& c.last() == 0
    &&& forall|j: int| 0 <= j < c.len() - 1 ==> c[j] != 0
    &&& valid_utf8(c.drop_last())
}

/// The commands that complete command chunks carry.
pub open spec fn chunk_commands(chunks: Seq<Seq<u8>>) -> Seq<Seq<char>> {
    chunks.map_values(|c: Seq<u8>| decode_utf8(c.drop_last()))
}

/// Writing complete commands one chunk each, from a state with no pending
/// command, succeeds and leaves the store that running those commands in
/// order gives, with no pending command.
pub proof fn lemma_command_writes(d: DataView, chunks: Seq<Seq<u8>>)
    requires
        d.request.len() == 0,
        forall|i: int| 0 <= i < chunks.len() ==> is_command_chunk(#[trigger] chunks[i]),
    ensures
        write_all(d, chunks) is Some,
        write_all(d, chunks)->0.request.len() == 0,
        write_all(d, chunks)->0.store == run(d.store, chunk_commands(chunks)),
    decreases chunks.len(),
{
    if chunks.len() > 0 {
        let init = chunks.drop_last();
        let c = chunks.last();
        assert forall|i: int| 0 <= i < init.len() implies is_command_chunk(#[trigger] init[i]) by {
            assert(init[i] == chunks[i]);
        }
        lemma_command_writes(d, init);
        assert(is_command_chunk(chunks[chunks.len() - 1]));
        assert(is_first_zero(c, c.len() - 1));
        lemma_zero_pos(c, c.len() - 1);
        assert(command_bytes(c) =~= c.drop_last());
        let prev = write_all(d, init)->0;
        assert(prev.request + decode_utf8(c.drop_last()) =~= decode_utf8(c.drop_last()));
        assert(chunk_commands(chunks).drop_last() =~= chunk_commands(init));
    }
}

/// Starting from a fresh state and writing complete commands one chunk
/// each, whatever commands come between them, the n-th successful `ADD`
/// creates the record with id n - 1, and the counter stands at the number
/// of successful `ADD`s.
pub proof fn lemma_ids_follow_successful_add_writes(chunks: Seq<Seq<u8>>)
    requires
        forall|i: int| 0 <= i < chunks.len() ==> is_command_chunk(#[trigger] chunks[i]),
    ensures
        ({
            let fresh = DataView { request: Seq::empty(), response: Seq::empty(), store: empty_store() };
            let ids = created_ids(empty_store(), chunk_commands(chunks));
            &&& write_all(fresh, chunks) is Some
            &&& write_all(fresh, chunks)->0.store.next_id == ids.len()
            &&& forall|i: int| 0 <= i < ids.len() ==> #[trigger] ids[i] == i
        }),
{
    let fresh = DataView { request: Seq::empty(), response: Seq::empty(), store: empty_store() };
    lemma_command_writes(fresh, chunks);
    lemma_ids_follow_successful_adds(chunk_commands(chunks));
}

} // verus!
