//! What one read of input yields: the chunks that `cat` copies and the
//! lines that `echo`, `tee` and the echo clients pass on.
use vstd::prelude::*;

verus! {

/// The size of the buffer that one read of a chunk fills.
pub const CHUNK_SIZE: usize = 1024;

/// The next item of a stream of chunks, from the outcome of one read into
/// `buf`: a failed read yields its error, a read of no bytes ends the
/// stream, and a read of `n` bytes yields the first `n` bytes of `buf`.
pub fn chunk_item<E>(read: Result<usize, E>, buf: &[u8]) -> (item: Option<Result<Vec<u8>, E>>)
    requires
        read matches Ok(n) ==> n <= buf@.len(),
    ensures
        match read {
            Err(e) => item == Some(Err::<Vec<u8>, E>(e)),
            Ok(n) => if n == 0 {
                item is None
            } else {
                item matches Some(Ok(chunk)) && chunk@ == buf@.take(n as int)
            },
        },
        read matches Ok(n) ==> (item is None <==> chunk_of(n as nat, buf@) is None),
        match (read, item) {
            (Ok(n), Some(Ok(chunk))) => chunk_of(n as nat, buf@) == Some(chunk@),
            _ => true,
        },
{
    match read {
        Err(e) => Some(Err(e)),
        Ok(n) => {
            if n == 0 {
                None
            } else {
                let mut chunk: Vec<u8> = Vec::new();
                let mut i: usize = 0;
                while i < n
                    invariant
                        n <= buf@.len(),
                        i <= n,
                        chunk@ == buf@.take(i as int),
                    decreases n - i,
                {
                    chunk.push(buf[i]);
                    i = i + 1;
                    assert(chunk@ =~= buf@.take(i as int));
                }
                Some(Ok(chunk))
            }
        },
    }
}

/// The next line of input, from the outcome of one `read_line` into
/// `buffer`: a failed read yields its error, a read of no bytes means the
/// input has ended, and any other read yields the buffer.
pub fn line_item<E>(read: Result<usize, E>, buffer: String) -> (line: Result<Option<String>, E>)
    ensures
        match read {
            Err(e) => line == Err::<Option<String>, E>(e),
            Ok(n) => if n == 0 {
                line == Ok::<Option<String>, E>(None)
            } else {
                line == Ok::<Option<String>, E>(Some(buffer))
            },
        },
{
    match read {
        Err(e) => Err(e),
        Ok(n) => {
            if n == 0 {
                Ok(None)
            } else {
                Ok(Some(buffer))
            }
        },
    }
}

/// The chunks that a stream yields before it ends, read after read: the
/// bytes of each read that yielded a chunk, in order, joined.
pub open spec fn joined(chunks: Seq<Seq<u8>>) -> Seq<u8>
    decreases chunks.len(),
{
    if chunks.len() == 0 {
        seq![]
    } else {
        joined(chunks.drop_last()) + chunks.last()
    }
}

/// The item that a read of `n` bytes into a buffer holding `buf` gives,
/// as `chunk_item` makes it from a read that did not fail.
pub open spec fn chunk_of(n: nat, buf: Seq<u8>) -> Option<Seq<u8>> {
    if n == 0 {
        None
    } else {
        Some(buf.take(n as int))
    }
}

/// Copying a stream chunk by chunk reproduces its content. Say the content
/// is `content` and the reads before the end filled the buffers `bufs`,
/// each with at least one byte (`counts` of them, no more than the buffer
/// holds), each taking the next bytes of the content, until the content is
/// used up. Then the chunks made from these reads are all present, each
/// holds between one byte and a buffer's worth, and joined they are the
/// content; the read after them, of no bytes, ends the stream.
pub proof fn lemma_chunks_reproduce_input(content: Seq<u8>, counts: Seq<nat>, bufs: Seq<Seq<u8>>)
    requires
        counts.len() == bufs.len(),
        forall|k: int| 0 <= k < counts.len() ==> 0 < #[trigger] counts[k] <= bufs[k].len(),
        forall|k: int|
            0 <= k < counts.len() ==> (#[trigger] bufs[k]).take(counts[k] as int)
                == content.subrange(offset(counts, k), offset(counts, k) + counts[k]),
        offset(counts, counts.len() as int) == content.len(),
    ensures
        forall|k: int|
            0 <= k < counts.len() ==> (#[trigger] chunk_of(counts[k], bufs[k])) is Some
                && 1 <= chunk_of(counts[k], bufs[k])->0.len() <= bufs[k].len(),
        joined(Seq::new(counts.len(), |k: int| chunk_of(counts[k], bufs[k])->0)) == content,
        forall|buf: Seq<u8>| chunk_of(0, buf) is None,
{
    let chunks = Seq::new(counts.len(), |k: int| chunk_of(counts[k], bufs[k])->0);
    assert forall|k: int| 0 <= k < chunks.len() implies #[trigger] chunks[k] == content.subrange(
        offset(counts, k),
        offset(counts, k) + counts[k],
    ) by {
        assert(chunks[k] == bufs[k].take(counts[k] as int));
    }
    lemma_joined_chunks(content, counts, chunks);
    assert(content.take(content.len() as int) =~= content);
}

/// Chunks that each take the next bytes of `input` join to the input read
/// so far.
proof fn lemma_joined_chunks(input: Seq<u8>, counts: Seq<nat>, chunks: Seq<Seq<u8>>)
    requires
        counts.len() == chunks.len(),
        forall|k: int|
            0 <= k < chunks.len() ==> #[trigger] chunks[k] == input.subrange(
                offset(counts, k),
                offset(counts, k) + counts[k],
            ),
        offset(counts, counts.len() as int) <= input.len(),
    ensures
        joined(chunks) == input.take(offset(counts, counts.len() as int)),
    decreases chunks.len(),
{
    lemma_offset_monotonic(counts, counts.len() as int);
    if chunks.len() > 0 {
        let m = (chunks.len() - 1) as int;
        let c2 = counts.drop_last();
        let k2 = chunks.drop_last();
        assert forall|k: int| 0 <= k <= c2.len() implies offset(c2, k) == offset(counts, k) by {
            lemma_offset_prefix(counts, k);
        }
        assert forall|k: int| 0 <= k < k2.len() implies #[trigger] k2[k] == input.subrange(
            offset(c2, k),
            offset(c2, k) + c2[k],
        ) by {
            assert(k2[k] == chunks[k]);
        }
        lemma_offset_monotonic(counts, m);
        lemma_joined_chunks(input, c2, k2);
        lemma_offset_prefix(counts, m);
        let a = offset(counts, m);
        let b = offset(counts, m + 1);
        assert(chunks[m] == input.subrange(a, b));
        assert(joined(chunks) == joined(k2) + chunks[m]);
        assert(input.take(a) + input.subrange(a, b) =~= input.take(b));
    }
}

/// The number of bytes that the first `k` reads took.
pub open spec fn offset(counts: Seq<nat>, k: int) -> int
    decreases k,
{
    if k <= 0 {
        0
    } else {
        offset(counts, k - 1) + counts[k - 1]
    }
}

proof fn lemma_offset_monotonic(counts: Seq<nat>, k: int)
    ensures
        offset(counts, k) >= 0,
        forall|j: int| 0 <= j <= k ==> offset(counts, j) <= offset(counts, k),
    decreases k,
{
    if k > 0 {
        lemma_offset_monotonic(counts, k - 1);
    }
}

proof fn lemma_offset_prefix(counts: Seq<nat>, k: int)
    requires
        0 <= k < counts.len(),
    ensures
        offset(counts.drop_last(), k) == offset(counts, k),
    decreases k,
{
    if k > 0 {
        lemma_offset_prefix(counts, k - 1);
    }
}

} // verus!
