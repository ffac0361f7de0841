//! How a message travels: its bytes, and then an end mark.

use vstd::prelude::*;

verus! {

/// How many bytes one read asks for, and how long the end mark is.
pub const BUF_SIZE: usize = 4096;

/// The byte that the end mark repeats.
pub const END_BYTE: u8 = 42;

/// The mark behind every message.
pub open spec fn end_mark() -> Seq<u8> {
    Seq::new(BUF_SIZE as nat, |i: int| END_BYTE)
}

/// What is sent for a message.
pub open spec fn framed(payload: Seq<u8>) -> Seq<u8> {
    payload + end_mark()
}

/// Whether the end mark stands at the end of `bytes`.
pub open spec fn is_complete(bytes: Seq<u8>) -> bool {
    &&& bytes.len() >= BUF_SIZE
    &&& bytes.skip(bytes.len() - BUF_SIZE) == end_mark()
}

/// What stands in front of the end mark.
pub open spec fn unframed(bytes: Seq<u8>) -> Seq<u8> {
    bytes.take(bytes.len() - BUF_SIZE)
}

/// What a read leads to.
#[derive(Debug, Clone, Copy, PartialEq, Eq, Structural)]
pub enum Progress {
    /// The message goes on.
    ReadAgain,
    /// The stream ended before the message did.
    NoResponse,
    /// The message is there.
    Complete,
}

/// The bytes received when `read` has been taken in, and what that leads to. A read that
/// failed and may be tried again is `None`, and changes nothing; one at the end of the
/// stream is `Some` of no bytes, and then nothing more can come.
pub open spec fn after_read(bytes: Seq<u8>, read: Option<Seq<u8>>) -> (Seq<u8>, Progress) {
    match read {
        None => (bytes, Progress::ReadAgain),
        Some(chunk) => if chunk.len() == 0 {
            (bytes, Progress::NoResponse)
        } else if is_complete(bytes + chunk) {
            (bytes + chunk, Progress::Complete)
        } else {
            (bytes + chunk, Progress::ReadAgain)
        },
    }
}

/// The message for `payload`: its bytes, and then the end mark.
pub fn frame(payload: Vec<u8>) -> (r: Vec<u8>)
    ensures
        r@ == framed(payload@),
{
    let mut message = payload;
    for i in 0..BUF_SIZE
        invariant
            message@ == payload@ + end_mark().take(i as int),
    {
        message.push(END_BYTE);
        assert(message@ =~= payload@ + end_mark().take(i + 1));
    }
    assert(end_mark().take(BUF_SIZE as int) =~= end_mark());
    message
}

/// Whether the end mark stands at the end of `bytes`.
pub fn ends_with_mark(bytes: &Vec<u8>) -> (r: bool)
    ensures
        r == is_complete(bytes@),
{
    let len: usize = bytes.len();
    if len < BUF_SIZE {
        return false;
    }
    let start: usize = len - BUF_SIZE;
    for i in 0..BUF_SIZE
        invariant
            len == bytes@.len(),
            len >= BUF_SIZE,
            start == len - BUF_SIZE,
            forall|j: int| start <= j < start + i ==> bytes@[j] == END_BYTE,
    {
        if bytes[start + i] != END_BYTE {
            assert(bytes@.skip(start as int)[i as int] != end_mark()[i as int]);
            return false;
        }
    }
    assert(bytes@.skip(start as int) =~= end_mark());
    true
}

/// A message that is being received.
pub struct Response {
    bytes: Vec<u8>,
}

impl View for Response {
    type V = Seq<u8>;

    closed spec fn view(&self) -> Seq<u8> {
        self.bytes@
    }
}

impl Response {
    /// Nothing has been received yet.
    pub fn new() -> (r: Self)
        ensures
            r@ == Seq::<u8>::empty(),
    {
        Response { bytes: Vec::new() }
    }

    /// Takes in what a read gave: the bytes that it read, none of them at the end of the
    /// stream, or `None` where it failed and may be tried again.
    pub fn receive(&mut self, read: Option<&[u8]>) -> (r: Progress)
        ensures
            ({
                let chunk = match read {
                    Some(chunk) => Some(chunk@),
                    None => None,
                };
                (final(self)@, r) == after_read(old(self)@, chunk)
            }),
    {
        match read {
            None => Progress::ReadAgain,
            Some(chunk) => {
                if chunk.len() == 0 {
                    return Progress::NoResponse;
                }
                self.bytes.extend_from_slice(chunk);
                assert(self.bytes@ =~= old(self).bytes@ + chunk@);
                if ends_with_mark(&self.bytes) {
                    Progress::Complete
                } else {
                    Progress::ReadAgain
                }
            },
        }
    }

    /// The message that was received, without its end mark.
    pub fn into_payload(self) -> (r: Vec<u8>)
        requires
            is_complete(self@),
        ensures
            r@ == unframed(self@),
    {
        let mut bytes = self.bytes;
        let len: usize = bytes.len();
        bytes.truncate(len - BUF_SIZE);
        bytes
    }
}

/// Where a sequence of reads ends up.
pub enum Reception {
    /// Still reading, with these bytes received.
    Pending(Seq<u8>),
    /// The stream ended before the message did.
    NoResponse,
    /// The message came, and this is what stood in front of its end mark.
    Payload(Seq<u8>),
}

/// What [`Response`] makes of the reads, one after the other: nothing is read any more
/// once there is a message or no response.
pub open spec fn reception(reads: Seq<Option<Seq<u8>>>) -> Reception
    decreases reads.len(),
{
    if reads.len() == 0 {
        Reception::Pending(seq![])
    } else {
        match reception(reads.drop_last()) {
            Reception::Pending(bytes) => {
                let (received, progress) = after_read(bytes, reads.last());
                match progress {
                    Progress::ReadAgain => Reception::Pending(received),
                    Progress::NoResponse => Reception::NoResponse,
                    Progress::Complete => Reception::Payload(unframed(received)),
                }
            },
            ended => ended,
        }
    }
}

/// The chunks, one after the other.
pub open spec fn joined(chunks: Seq<Seq<u8>>) -> Seq<u8>
    decreases chunks.len(),
{
    if chunks.len() == 0 {
        seq![]
    } else {
        joined(chunks.drop_last()) + chunks.last()
    }
}

/// Reads that give the chunks, none of them failing.
pub open spec fn reads_of(chunks: Seq<Seq<u8>>) -> Seq<Option<Seq<u8>>> {
    chunks.map_values(|c: Seq<u8>| Some(c))
}

/// What the reads that did not fail gave.
pub open spec fn arrived(reads: Seq<Option<Seq<u8>>>) -> Seq<Seq<u8>>
    decreases reads.len(),
{
    if reads.len() == 0 {
        seq![]
    } else {
        match reads.last() {
            Some(chunk) => arrived(reads.drop_last()).push(chunk),
            None => arrived(reads.drop_last()),
        }
    }
}

/// No end mark stands at the end of the first chunk, of the first two, and so on up to
/// the first `n`.
pub open spec fn unfinished(chunks: Seq<Seq<u8>>, n: int) -> bool {
    forall|j: int| 0 < j <= n ==> !is_complete(#[trigger] joined(chunks.take(j)))
}

/// The stream ends with the chunk at `k`, and no end mark came before.
pub open spec fn ends_early_at(chunks: Seq<Seq<u8>>, k: int) -> bool {
    &&& 0 <= k < chunks.len()
    &&& chunks[k].len() == 0
    &&& unfinished(chunks, k)
}

/// The stream ends before an end mark has come.
pub open spec fn ends_early(chunks: Seq<Seq<u8>>) -> bool {
    exists|k: int| #[trigger] ends_early_at(chunks, k)
}

/// The first `n` chunks are the first that end with the end mark, and the stream has not
/// ended before.
pub open spec fn completes_at(chunks: Seq<Seq<u8>>, n: int) -> bool {
    &&& 0 < n <= chunks.len()
    &&& forall|i: int| 0 <= i < n ==> (#[trigger] chunks[i]).len() > 0
    &&& is_complete(joined(chunks.take(n)))
    &&& unfinished(chunks, n - 1)
}

/// A message carries its payload: taking away the end mark undoes putting it there.
pub proof fn law_unframed_undoes_framed(payload: Seq<u8>)
    ensures
        is_complete(framed(payload)),
        unframed(framed(payload)) == payload,
{
    assert(framed(payload).skip(payload.len() as int) =~= end_mark());
    assert(unframed(framed(payload)) =~= payload);
}

/// Bytes with the end mark at their end are the message for what stands in front of it.
pub proof fn law_framed_undoes_unframed(bytes: Seq<u8>)
    requires
        is_complete(bytes),
    ensures
        framed(unframed(bytes)) == bytes,
{
    assert(framed(unframed(bytes)) =~= unframed(bytes) + bytes.skip(bytes.len() - BUF_SIZE));
    assert(framed(unframed(bytes)) =~= bytes);
}

/// A read that failed and may be tried again changes nothing: what is received depends
/// only on the reads that did not fail.
pub proof fn law_failed_reads_are_ignored(reads: Seq<Option<Seq<u8>>>)
    ensures
        reception(reads) == reception(reads_of(arrived(reads))),
    decreases reads.len(),
{
    if reads.len() > 0 {
        law_failed_reads_are_ignored(reads.drop_last());
        let rest = arrived(reads.drop_last());
        match reads.last() {
            Some(chunk) => {
                assert(reads_of(rest.push(chunk)).drop_last() =~= reads_of(rest));
                assert(reads_of(rest.push(chunk)).last() == Some(chunk));
            },
            None => {},
        }
    } else {
        assert(reads_of(arrived(reads)) =~= reads);
    }
}

/// There is no response if and only if the stream ends before an end mark has come,
/// whether it has brought something of a message or nothing at all.
pub proof fn law_no_response_iff_the_stream_ends_early(reads: Seq<Option<Seq<u8>>>)
    ensures
        reception(reads) is NoResponse <==> ends_early(arrived(reads)),
{
    law_failed_reads_are_ignored(reads);
    lemma_reception_of_chunks(arrived(reads));
}

/// A message has come if and only if an end mark has come before the end of the stream,
/// and its payload is what was received in front of the first such mark.
pub proof fn law_payload_iff_an_end_mark_came(reads: Seq<Option<Seq<u8>>>, payload: Seq<u8>)
    ensures
        reception(reads) == Reception::Payload(payload) <==> exists|n: int| #[trigger]
            completes_at(arrived(reads), n) && payload == unframed(joined(arrived(reads).take(n))),
{
    let chunks = arrived(reads);
    law_failed_reads_are_ignored(reads);
    lemma_reception_of_chunks(chunks);
    if exists|n: int| #[trigger]
        completes_at(chunks, n) && payload == unframed(joined(chunks.take(n))) {
        let n = choose|n: int| #[trigger]
            completes_at(chunks, n) && payload == unframed(joined(chunks.take(n)));
        lemma_completed(chunks, n);
    }
}

/// Where the chunks end up: all of them are collected, or the stream ended early, or an
/// end mark came.
proof fn lemma_reception_of_chunks(chunks: Seq<Seq<u8>>)
    ensures
        match reception(reads_of(chunks)) {
            Reception::Pending(bytes) => {
                &&& bytes == joined(chunks)
                &&& forall|i: int| 0 <= i < chunks.len() ==> (#[trigger] chunks[i]).len() > 0
                &&& unfinished(chunks, chunks.len() as int)
                &&& !ends_early(chunks)
            },
            Reception::NoResponse => ends_early(chunks),
            Reception::Payload(payload) => {
                &&& exists|n: int| #[trigger]
                    completes_at(chunks, n) && payload == unframed(joined(chunks.take(n)))
                &&& !ends_early(chunks)
            },
        },
    decreases chunks.len(),
{
    let reads = reads_of(chunks);
    if chunks.len() == 0 {
        assert(reads =~= seq![]);
    } else {
        let init = chunks.drop_last();
        let n = chunks.len() as int;
        lemma_reception_of_chunks(init);
        assert(reads.drop_last() =~= reads_of(init));
        assert(reads.last() == Some(chunks.last()));
        assert(chunks.take(n) =~= chunks);
        assert forall|j: int| 0 <= j < n implies #[trigger] chunks.take(j) == init.take(j) by {
            assert(chunks.take(j) =~= init.take(j));
        }
        match reception(reads_of(init)) {
            Reception::Pending(bytes) => {
                assert(init.take(n - 1) =~= init);
                assert(unfinished(chunks, n - 1));
                if chunks.last().len() == 0 {
                    assert(ends_early_at(chunks, n - 1));
                } else {
                    assert forall|i: int| 0 <= i < n implies (#[trigger] chunks[i]).len() > 0 by {
                        if i < n - 1 {
                            assert(init[i] == chunks[i]);
                        }
                    }
                    if is_complete(joined(chunks)) {
                        assert(completes_at(chunks, n));
                    }
                }
            },
            Reception::NoResponse => {
                let k = choose|k: int| #[trigger] ends_early_at(init, k);
                assert(ends_early_at(chunks, k));
            },
            Reception::Payload(payload) => {
                let m = choose|m: int| #[trigger]
                    completes_at(init, m) && payload == unframed(joined(init.take(m)));
                assert(completes_at(chunks, m)) by {
                    assert forall|i: int| 0 <= i < m implies (#[trigger] chunks[i]).len() > 0 by {
                        assert(init[i] == chunks[i]);
                    }
                }
                assert forall|k: int| !#[trigger] ends_early_at(chunks, k) by {
                    if ends_early_at(chunks, k) {
                        assert(k < m ==> chunks[k].len() > 0);
                        assert(!is_complete(joined(chunks.take(m))));
                    }
                }
            },
        }
    }
}

/// Once the end mark has come, the message stays what it is, whatever follows.
proof fn lemma_completed(chunks: Seq<Seq<u8>>, n: int)
    requires
        completes_at(chunks, n),
    ensures
        reception(reads_of(chunks)) == Reception::Payload(unframed(joined(chunks.take(n)))),
{
    lemma_reception_of_chunks(chunks);
    match reception(reads_of(chunks)) {
        Reception::Pending(_) => {
            assert(!is_complete(joined(chunks.take(n))));
        },
        Reception::NoResponse => {
            let k = choose|k: int| #[trigger] ends_early_at(chunks, k);
            assert(k < n ==> chunks[k].len() > 0);
            assert(!is_complete(joined(chunks.take(n))));
        },
        Reception::Payload(payload) => {
            let m = choose|m: int| #[trigger]
                completes_at(chunks, m) && payload == unframed(joined(chunks.take(m)));
            assert(m < n ==> !is_complete(joined(chunks.take(m))));
            assert(n < m ==> !is_complete(joined(chunks.take(n))));
        },
    }
}

/// A message is received as it was sent, however the stream cuts it into chunks that are
/// not empty, as long as no chunk before the last one ends where an end mark happens to
/// end.
pub proof fn law_message_is_received(payload: Seq<u8>, chunks: Seq<Seq<u8>>)
    requires
        joined(chunks) == framed(payload),
        forall|i: int| 0 <= i < chunks.len() ==> (#[trigger] chunks[i]).len() > 0,
        unfinished(chunks, chunks.len() - 1),
    ensures
        reception(reads_of(chunks)) == Reception::Payload(payload),
        forall|k: int|
            0 <= k < chunks.len() ==> reception(#[trigger] reads_of(chunks.take(k)))
                == Reception::Pending(joined(chunks.take(k))),
{
    let n = chunks.len() as int;
    assert(n > 0) by {
        if n == 0 {
            assert(framed(payload).len() >= BUF_SIZE);
        }
    }
    law_unframed_undoes_framed(payload);
    assert(chunks.take(n) =~= chunks);
    assert(completes_at(chunks, n));
    lemma_completed(chunks, n);
    assert forall|k: int| 0 <= k < n implies reception(#[trigger] reads_of(chunks.take(k)))
        == Reception::Pending(joined(chunks.take(k))) by {
        lemma_pending(chunks, k);
    }
}

/// While no end mark has come, the chunks are only collected.
proof fn lemma_pending(chunks: Seq<Seq<u8>>, k: int)
    requires
        0 <= k <= chunks.len(),
        forall|i: int| 0 <= i < chunks.len() ==> (#[trigger] chunks[i]).len() > 0,
        unfinished(chunks, k),
    ensures
        reception(reads_of(chunks.take(k))) == Reception::Pending(joined(chunks.take(k))),
    decreases k,
{
    let reads = reads_of(chunks.take(k));
    if k == 0 {
        assert(reads =~= seq![]);
    } else {
        lemma_pending(chunks, k - 1);
        let before = chunks.take(k - 1);
        assert(chunks.take(k).drop_last() =~= before);
        assert(reads.drop_last() =~= reads_of(before));
        assert(reads.last() == Some(chunks[k - 1]));
    }
}

/// A payload that cannot be mistaken: in its message the end mark occurs nowhere but
/// at the end.
pub open spec fn marks_only_end(payload: Seq<u8>) -> bool {
    forall|k: int|
        BUF_SIZE <= k < framed(payload).len() ==> !is_complete(#[trigger] framed(payload).take(k))
}

/// A payload in whose message the end mark occurs only at the end is received as it was
/// sent, however the stream cuts the message into chunks that are not empty.
pub proof fn law_unmistakable_message_is_received(payload: Seq<u8>, chunks: Seq<Seq<u8>>)
    requires
        marks_only_end(payload),
        joined(chunks) == framed(payload),
        forall|i: int| 0 <= i < chunks.len() ==> (#[trigger] chunks[i]).len() > 0,
    ensures
        reception(reads_of(chunks)) == Reception::Payload(payload),
{
    assert forall|k: int| 0 < k < chunks.len() implies !is_complete(
        #[trigger] joined(chunks.take(k)),
    ) by {
        lemma_joined_prefix(chunks, k);
        let part = joined(chunks.take(k));
        assert(part == framed(payload).take(part.len() as int));
    }
    law_message_is_received(payload, chunks);
}

/// The first chunks make up a proper beginning of what all of them make up.
proof fn lemma_joined_prefix(chunks: Seq<Seq<u8>>, k: int)
    requires
        0 <= k < chunks.len(),
        forall|i: int| 0 <= i < chunks.len() ==> (#[trigger] chunks[i]).len() > 0,
    ensures
        joined(chunks.take(k)).len() < joined(chunks).len(),
        joined(chunks.take(k)) == joined(chunks).take(joined(chunks.take(k)).len() as int),
    decreases chunks.len(),
{
    let init = chunks.drop_last();
    assert(chunks[chunks.len() - 1].len() > 0);
    if k == chunks.len() - 1 {
        assert(chunks.take(k) =~= init);
        assert(joined(chunks).take(joined(init).len() as int) =~= joined(init));
    } else {
        assert forall|i: int| 0 <= i < init.len() implies (#[trigger] init[i]).len() > 0 by {
            assert(init[i] == chunks[i]);
        }
        lemma_joined_prefix(init, k);
        assert(init.take(k) =~= chunks.take(k));
        let m = joined(chunks.take(k)).len() as int;
        assert(joined(chunks).take(m) =~= joined(init).take(m));
    }
}

/// A payload that does not end with the mark's byte and has no run of that byte as long
/// as the end mark cannot be mistaken.
pub proof fn law_ordinary_payload_marks_only_end(payload: Seq<u8>)
    requires
        payload.len() > 0 ==> payload.last() != END_BYTE,
        forall|k: int|
            BUF_SIZE <= k <= payload.len() ==> !is_complete(#[trigger] payload.take(k)),
    ensures
        marks_only_end(payload),
{
    let whole = framed(payload);
    assert forall|k: int| BUF_SIZE <= k < whole.len() implies !is_complete(
        #[trigger] whole.take(k),
    ) by {
        let part = whole.take(k);
        if k <= payload.len() {
            assert(part =~= payload.take(k));
        } else {
            let at = payload.len() - 1 - (k - BUF_SIZE);
            assert(part.skip(k - BUF_SIZE)[at] == payload.last());
            assert(end_mark()[at] == END_BYTE);
        }
    }
}

/// A message is its payload, whole, and then the end mark, and nothing else.
pub proof fn law_message_is_payload_and_mark(payload: Seq<u8>)
    ensures
        framed(payload).len() == payload.len() + BUF_SIZE,
        forall|i: int| 0 <= i < payload.len() ==> #[trigger] framed(payload)[i] == payload[i],
        forall|i: int|
            payload.len() <= i < payload.len() + BUF_SIZE ==> #[trigger] framed(payload)[i]
                == END_BYTE,
        end_mark().len() == BUF_SIZE,
        forall|i: int| 0 <= i < BUF_SIZE ==> #[trigger] end_mark()[i] == END_BYTE,
{
}

/// A message is complete if and only if its last bytes, as many as the end mark has, are
/// all the mark's byte; what stands in front of them is then the payload, whole.
pub proof fn law_complete_iff_the_last_bytes_are_the_mark(bytes: Seq<u8>)
    ensures
        is_complete(bytes) <==> {
            &&& bytes.len() >= BUF_SIZE
            &&& forall|i: int|
                bytes.len() - BUF_SIZE <= i < bytes.len() ==> #[trigger] bytes[i] == END_BYTE
        },
        bytes.len() >= BUF_SIZE ==> {
            &&& unframed(bytes).len() == bytes.len() - BUF_SIZE
            &&& forall|i: int|
                0 <= i < bytes.len() - BUF_SIZE ==> #[trigger] unframed(bytes)[i] == bytes[i]
        },
{
    if bytes.len() >= BUF_SIZE {
        let start = bytes.len() - BUF_SIZE;
        let tail = bytes.skip(start);
        if tail == end_mark() {
            assert forall|i: int| start <= i < bytes.len() implies #[trigger] bytes[i] == END_BYTE by {
                assert(tail[i - start] == bytes[i]);
                assert(end_mark()[i - start] == END_BYTE);
            }
        }
        if forall|i: int| start <= i < bytes.len() ==> #[trigger] bytes[i] == END_BYTE {
            assert(tail =~= end_mark());
        }
    }
}

/// A read that gave bytes adds all of them, and nothing else, to what was received, and the
/// message is there if and only if the end mark then stands at the end. A read at the end
/// of the stream adds nothing and ends in no response; one that failed and may be tried
/// again adds nothing and ends in nothing.
pub proof fn law_reads_add_up(bytes: Seq<u8>, chunk: Seq<u8>)
    ensures
        chunk.len() > 0 ==> {
            let (received, progress) = after_read(bytes, Some(chunk));
            &&& received.len() == bytes.len() + chunk.len()
            &&& received.take(bytes.len() as int) == bytes
            &&& received.skip(bytes.len() as int) == chunk
            &&& progress != Progress::NoResponse
            &&& progress == Progress::Complete <==> {
                &&& received.len() >= BUF_SIZE
                &&& forall|i: int|
                    received.len() - BUF_SIZE <= i < received.len() ==> #[trigger] received[i]
                        == END_BYTE
            }
        },
        chunk.len() == 0 ==> after_read(bytes, Some(chunk)) == (bytes, Progress::NoResponse),
        after_read(bytes, None) == (bytes, Progress::ReadAgain),
{
    let received = bytes + chunk;
    assert(received.take(bytes.len() as int) =~= bytes);
    assert(received.skip(bytes.len() as int) =~= chunk);
    law_complete_iff_the_last_bytes_are_the_mark(received);
}

} // verus!
