//! Splitting transcripts into overlapping chunks, and the decisions of the summary pipeline.
use crate::prompts::PromptContext;
use crate::text::{
    decimal, from_chars, is_word, join, join_offset, lemma_join_offset_grows, lemma_join_parts, join_chars, lemma_words_are_words, lemma_words_of_join,
    push_decimal, split_words, to_chars, views, words,
};
use crate::web::clients::completions::stream::SseMessage;
use vstd::prelude::*;

verus! {

/// `a / b` rounded up.
pub open spec fn div_ceil(a: nat, b: nat) -> nat
    recommends
        b > 0,
{
    if a % b == 0 {
        a / b
    } else {
        a / b + 1
    }
}

/// The distance between the starts of two neighbouring chunks, or `None` when the
/// input is not split at all: `chunk - overlap` must exist and lie in `1..len`, and a chunk
/// must fit in the input.
pub open spec fn chunk_step(len: nat, chunk: nat, overlap: nat) -> Option<nat> {
    if overlap <= chunk && 1 <= chunk - overlap && chunk - overlap < len && chunk <= len {
        Some((chunk - overlap) as nat)
    } else {
        None
    }
}

/// How many chunks an input of `len` items is split into, with the given `step`.
pub open spec fn chunk_count(len: nat, chunk: nat, step: nat) -> nat {
    div_ceil((len - chunk) as nat, step) + 1
}

/// Where the chunk starting at `start` ends: `chunk` items later, or at the end.
pub open spec fn chunk_end(len: nat, chunk: nat, start: nat) -> nat {
    if start + chunk <= len {
        start + chunk
    } else {
        len
    }
}

/// The `i`-th chunk of `xs`.
pub open spec fn chunk_at<T>(xs: Seq<T>, chunk: nat, step: nat, i: nat) -> Seq<T> {
    xs.subrange((i * step) as int, chunk_end(xs.len(), chunk, i * step) as int)
}

/// `xs` split into windows of `chunk` items whose starts lie `chunk - overlap` apart; the
/// last window ends with the input. Where no such split exists, `xs` is the only chunk.
pub open spec fn spec_chunk_items<T>(xs: Seq<T>, chunk: nat, overlap: nat) -> Seq<Seq<T>> {
    match chunk_step(xs.len(), chunk, overlap) {
        None => seq![xs],
        Some(step) => Seq::new(
            chunk_count(xs.len(), chunk, step),
            |i: int| chunk_at(xs, chunk, step, i as nat),
        ),
    }
}

/// Facts on the number of chunks: the last chunk starts inside the input and reaches its
/// end, and every other chunk is complete.
pub proof fn lemma_chunk_count(len: nat, chunk: nat, step: nat)
    requires
        1 <= step <= chunk <= len,
    ensures
        chunk_count(len, chunk, step) >= 1,
        ((chunk_count(len, chunk, step) - 1) * step) as nat + chunk >= len,
        ((chunk_count(len, chunk, step) - 1) * step) + chunk < len + step,
        ((chunk_count(len, chunk, step) - 1) * step) < len,
        chunk_count(len, chunk, step) >= 2 ==> ((chunk_count(len, chunk, step) - 2) * step) as nat
            + chunk < len,
{
    let a = (len - chunk) as nat;
    let q = div_ceil(a, step);
    let d = a / step;
    let r = a % step;
    assert(a == d * step + r && 0 <= r < step) by (nonlinear_arith)
        requires
            step >= 1,
            d == a / step,
            r == a % step,
    ;
    if r == 0 {
        assert(q * step == a);
        if q >= 1 {
            assert((q - 1) * step == q * step - step) by (nonlinear_arith);
        }
    } else {
        assert(q * step == d * step + step) by (nonlinear_arith)
            requires
                q == d + 1,
        ;
        assert((q - 1) * step == d * step) by (nonlinear_arith)
            requires
                q == d + 1,
        ;
    }
}

/// Monotonicity of the chunk starts.
pub proof fn lemma_start_le(i: nat, j: nat, step: nat)
    requires
        i <= j,
    ensures
        i * step <= j * step,
{
    assert(i * step <= j * step) by (nonlinear_arith)
        requires
            i <= j,
    ;
}

/// The shape of the `i`-th chunk: it starts inside the input, ends less than a step past the
/// input's end, is complete unless it is the last one, and the last one reaches the end.
pub proof fn lemma_chunk_shape(len: nat, chunk: nat, step: nat, i: nat)
    requires
        1 <= step <= chunk <= len,
        i < chunk_count(len, chunk, step),
    ensures
        i * step < len,
        i * step + chunk < len + step,
        (i + 1) * step == i * step + step,
        i + 1 < chunk_count(len, chunk, step) ==> i * step + chunk <= len,
        i + 1 == chunk_count(len, chunk, step) ==> i * step + chunk >= len,
{
    let count = chunk_count(len, chunk, step);
    lemma_chunk_count(len, chunk, step);
    lemma_start_le(i, (count - 1) as nat, step);
    assert((i + 1) * step == i * step + step) by (nonlinear_arith);
    if i + 1 < count {
        lemma_start_le(i, (count - 2) as nat, step);
    }
}

/// Splits `xs` into chunks of `chunk` items that overlap by `overlap` items.
/// Returns `xs` as the only chunk when `chunk - overlap` is not in `1..xs.len()` or when a
/// chunk is longer than `xs`.
pub fn chunk_items<T>(xs: &[T], chunk: usize, overlap: usize) -> (out: Vec<&[T]>)
    ensures
        out@.len() == spec_chunk_items(xs@, chunk as nat, overlap as nat).len(),
        forall|i: int|
            0 <= i < out@.len() ==> #[trigger] out@[i]@ == spec_chunk_items(
                xs@,
                chunk as nat,
                overlap as nat,
            )[i],
{
    let len = xs.len();
    if !(overlap <= chunk && 1 <= chunk - overlap && chunk - overlap < len && chunk <= len) {
        let mut out: Vec<&[T]> = Vec::new();
        out.push(xs);
        return out;
    }
    let step = chunk - overlap;
    let ghost spec_step = step as nat;
    proof {
        lemma_chunk_count(len as nat, chunk as nat, spec_step);
    }
    let a = len - chunk;
    let count = if a % step == 0 {
        a / step + 1
    } else {
        a / step + 2
    };
    assert(count == chunk_count(len as nat, chunk as nat, spec_step));
    let mut out: Vec<&[T]> = Vec::new();
    let mut i: usize = 0;
    while i < count
        invariant
            len == xs@.len(),
            step == chunk - overlap,
            1 <= step <= chunk <= len,
            count == chunk_count(len as nat, chunk as nat, step as nat),
            ((count - 1) * step) < len,
            i <= count,
            out@.len() == i,
            forall|j: int| 0 <= j < i ==> #[trigger] out@[j]@ == chunk_at(xs@, chunk as nat, step as nat, j as nat),
        decreases count - i,
    {
        proof {
            lemma_start_le(i as nat, (count - 1) as nat, step as nat);
        }
        let start = i * step;
        let end = if chunk <= len - start {
            start + chunk
        } else {
            len
        };
        let piece = vstd::slice::slice_subrange(xs, start, end);
        out.push(piece);
        i = i + 1;
    }
    out
}

/// The sum of the lengths of `ss`.
pub open spec fn total_len<T>(ss: Seq<Seq<T>>) -> nat
    decreases ss.len(),
{
    if ss.len() == 0 {
        0
    } else {
        total_len(ss.drop_last()) + ss.last().len()
    }
}

/// The first chunk followed by every later chunk without its first `overlap` items.
pub open spec fn reassemble<T>(ss: Seq<Seq<T>>, overlap: nat) -> Seq<T>
    decreases ss.len(),
{
    if ss.len() == 0 {
        Seq::empty()
    } else if ss.len() == 1 {
        ss[0]
    } else {
        reassemble(ss.drop_last(), overlap) + ss.last().skip(overlap as int)
    }
}

/// Every prefix of the chunks reassembles to the prefix of the input that it covers, and its
/// lengths add up to that prefix plus one overlap per seam.
proof fn lemma_chunk_prefixes<T>(xs: Seq<T>, chunk: nat, overlap: nat, k: nat)
    requires
        chunk_step(xs.len(), chunk, overlap) is Some,
        1 <= k <= spec_chunk_items(xs, chunk, overlap).len(),
    ensures
        ({
            let step = chunk_step(xs.len(), chunk, overlap)->0;
            let ss = spec_chunk_items(xs, chunk, overlap).take(k as int);
            let end = chunk_end(xs.len(), chunk, ((k - 1) * step) as nat);
            &&& reassemble(ss, overlap) == xs.subrange(0, end as int)
            &&& total_len(ss) == end + (k - 1) * overlap
        }),
    decreases k,
{
    let len = xs.len();
    let step = chunk_step(len, chunk, overlap)->0;
    let all = spec_chunk_items(xs, chunk, overlap);
    let ss = all.take(k as int);
    lemma_chunk_shape(len, chunk, step, (k - 1) as nat);
    if k == 1 {
        assert(ss.drop_last() =~= Seq::<Seq<T>>::empty());
        assert(ss[0] == chunk_at(xs, chunk, step, 0));
        assert(0 * step == 0) by (nonlinear_arith);
        assert(0 * overlap == 0) by (nonlinear_arith);
        assert(total_len(ss.drop_last()) == 0);
        assert(ss.last().len() == chunk_end(len, chunk, 0));
        assert(total_len(ss) == chunk_end(len, chunk, 0));
    } else {
        lemma_chunk_prefixes(xs, chunk, overlap, (k - 1) as nat);
        lemma_chunk_shape(len, chunk, step, (k - 2) as nat);
        let prev = all.take(k - 1);
        assert(ss.drop_last() =~= prev);
        let s0 = ((k - 2) * step) as nat;
        let s1 = ((k - 1) * step) as nat;
        assert(s1 == s0 + step) by (nonlinear_arith)
            requires
                s0 == (k - 2) * step,
                s1 == (k - 1) * step,
                k >= 2,
        ;
        let last = ss.last();
        assert(last == chunk_at(xs, chunk, step, (k - 1) as nat));
        let end1 = chunk_end(len, chunk, s1);
        assert(last.skip(overlap as int) =~= xs.subrange((s0 + chunk) as int, end1 as int));
        assert(reassemble(ss, overlap) =~= xs.subrange(0, end1 as int));
        assert((k - 1) * overlap == (k - 2) * overlap + overlap) by (nonlinear_arith)
            requires
                k >= 2,
        ;
        assert(total_len(ss) == total_len(prev) + last.len());
        assert(total_len(prev) == s0 + chunk + (k - 2) * overlap);
        assert(last.len() == end1 - s1);
        assert(step == chunk - overlap);
    }
}

/// Law: the lengths of the chunks add up to the input's length plus one overlap for every
/// seam between two chunks.
pub proof fn lemma_chunks_total_len<T>(xs: Seq<T>, chunk: nat, overlap: nat)
    ensures
        total_len(spec_chunk_items(xs, chunk, overlap)) == xs.len() + overlap * (
        spec_chunk_items(xs, chunk, overlap).len() - 1),
{
    let ss = spec_chunk_items(xs, chunk, overlap);
    if chunk_step(xs.len(), chunk, overlap) is Some {
        let step = chunk_step(xs.len(), chunk, overlap)->0;
        lemma_chunk_count(xs.len(), chunk, step);
        let k = ss.len();
        lemma_chunk_prefixes(xs, chunk, overlap, k);
        assert(ss.take(k as int) =~= ss);
        lemma_chunk_shape(xs.len(), chunk, step, (k - 1) as nat);
        assert((k - 1) * overlap == overlap * (k - 1)) by (nonlinear_arith);
        assert(chunk_end(xs.len(), chunk, ((k - 1) * step) as nat) == xs.len());
        assert(total_len(ss) == xs.len() + (k - 1) * overlap);
    } else {
        assert(ss.drop_last() =~= Seq::<Seq<T>>::empty());
        assert(total_len(ss.drop_last()) == 0);
        assert(total_len(ss) == xs.len());
        assert(overlap * 0 == 0) by (nonlinear_arith);
    }
}

/// Law: dropping the first `overlap` items of every chunk but the first and joining them
/// gives back the input.
pub proof fn lemma_chunks_reassemble<T>(xs: Seq<T>, chunk: nat, overlap: nat)
    ensures
        reassemble(spec_chunk_items(xs, chunk, overlap), overlap) == xs,
{
    let ss = spec_chunk_items(xs, chunk, overlap);
    if chunk_step(xs.len(), chunk, overlap) is Some {
        let step = chunk_step(xs.len(), chunk, overlap)->0;
        lemma_chunk_count(xs.len(), chunk, step);
        let k = ss.len();
        lemma_chunk_prefixes(xs, chunk, overlap, k);
        assert(ss.take(k as int) =~= ss);
        lemma_chunk_shape(xs.len(), chunk, step, (k - 1) as nat);
        assert(xs.subrange(0, xs.len() as int) =~= xs);
    }
}

/// Law: where the input is split, every chunk but the last holds exactly `chunk` items, the
/// last holds more than `overlap` items, and the last `overlap` items of a chunk are the first
/// `overlap` items of the next one.
pub proof fn lemma_chunks_overlap<T>(xs: Seq<T>, chunk: nat, overlap: nat, i: int)
    requires
        0 <= i < spec_chunk_items(xs, chunk, overlap).len() - 1,
    ensures
        chunk_step(xs.len(), chunk, overlap) is Some,
        spec_chunk_items(xs, chunk, overlap)[i].len() == chunk,
        spec_chunk_items(xs, chunk, overlap)[i + 1].len() > overlap,
        spec_chunk_items(xs, chunk, overlap)[i].skip(chunk - overlap)
            == spec_chunk_items(xs, chunk, overlap)[i + 1].take(overlap as int),
{
    let step = chunk_step(xs.len(), chunk, overlap)->0;
    lemma_chunk_count(xs.len(), chunk, step);
    lemma_chunk_shape(xs.len(), chunk, step, i as nat);
    lemma_chunk_shape(xs.len(), chunk, step, (i + 1) as nat);
    let ss = spec_chunk_items(xs, chunk, overlap);
    assert(ss[i].skip(chunk - overlap) =~= ss[i + 1].take(overlap as int));
}

/// Law: where the input is split, no chunk holds more than `chunk` items; otherwise the input
/// is the one and only chunk.
pub proof fn lemma_chunks_shape<T>(xs: Seq<T>, chunk: nat, overlap: nat)
    ensures
        spec_chunk_items(xs, chunk, overlap).len() >= 1,
        chunk_step(xs.len(), chunk, overlap) is None ==> spec_chunk_items(xs, chunk, overlap)
            == seq![xs],
        chunk_step(xs.len(), chunk, overlap) is Some ==> forall|i: int|
            0 <= i < spec_chunk_items(xs, chunk, overlap).len() ==> (#[trigger] spec_chunk_items(
                xs,
                chunk,
                overlap,
            )[i]).len() <= chunk,
{
    if chunk_step(xs.len(), chunk, overlap) is Some {
        let step = chunk_step(xs.len(), chunk, overlap)->0;
        lemma_chunk_count(xs.len(), chunk, step);
        assert forall|i: int| 0 <= i < spec_chunk_items(xs, chunk, overlap).len() implies (
        #[trigger] spec_chunk_items(xs, chunk, overlap)[i]).len() <= chunk by {
            lemma_chunk_shape(xs.len(), chunk, step, i as nat);
        }
    }
}

/// Law: an empty input gives a single empty chunk.
pub proof fn lemma_chunks_of_empty<T>(chunk: nat, overlap: nat)
    ensures
        spec_chunk_items(Seq::<T>::empty(), chunk, overlap) == seq![Seq::<T>::empty()],
{
}

/// Law: the input is the one and only chunk where the chunk holds no more items than the
/// overlap, where `chunk - overlap` is not shorter than the input, or where a chunk is longer
/// than the input.
pub proof fn lemma_single_chunk<T>(xs: Seq<T>, chunk: nat, overlap: nat)
    requires
        chunk <= overlap || chunk - overlap >= xs.len() || chunk > xs.len(),
    ensures
        spec_chunk_items(xs, chunk, overlap) == seq![xs],
{
}

/// Without overlap, reassembling is joining.
proof fn lemma_reassemble_without_overlap<T>(ss: Seq<Seq<T>>)
    requires
        ss.len() >= 1,
    ensures
        reassemble(ss, 0) == ss.flatten(),
    decreases ss.len(),
{
    broadcast use Seq::lemma_flatten_push;

    if ss.len() == 1 {
        assert(ss =~= Seq::<Seq<T>>::empty().push(ss[0]));
        assert(Seq::<Seq<T>>::empty().flatten() =~= Seq::<T>::empty());
        assert(ss.flatten() =~= ss[0]);
    } else {
        lemma_reassemble_without_overlap(ss.drop_last());
        assert(ss =~= ss.drop_last().push(ss.last()));
        assert(ss.last().skip(0) =~= ss.last());
    }
}

/// Law: without overlap, joining the chunks gives back the input.
pub proof fn lemma_chunks_concat_without_overlap<T>(xs: Seq<T>, chunk: nat)
    ensures
        spec_chunk_items(xs, chunk, 0).flatten() == xs,
{
    lemma_chunks_shape(xs, chunk, 0);
    lemma_chunks_reassemble(xs, chunk, 0);
    lemma_reassemble_without_overlap(spec_chunk_items(xs, chunk, 0));
}

/// Chunking commutes with taking the views of the items.
proof fn lemma_chunks_of_views(ws: Seq<Vec<char>>, chunk: nat, overlap: nat)
    ensures
        spec_chunk_items(views(ws), chunk, overlap).len() == spec_chunk_items(ws, chunk, overlap).len(),
        forall|i: int|
            0 <= i < spec_chunk_items(ws, chunk, overlap).len() ==> views(
                #[trigger] spec_chunk_items(ws, chunk, overlap)[i],
            ) == spec_chunk_items(views(ws), chunk, overlap)[i],
{
    assert forall|i: int| 0 <= i < spec_chunk_items(ws, chunk, overlap).len() implies views(
        #[trigger] spec_chunk_items(ws, chunk, overlap)[i],
    ) == spec_chunk_items(views(ws), chunk, overlap)[i] by {
        assert(views(ws).len() == ws.len());
        if chunk_step(ws.len(), chunk, overlap) is Some {
            let step = chunk_step(ws.len(), chunk, overlap)->0;
            let a = (i * step) as int;
            let b = chunk_end(ws.len(), chunk, (i * step) as nat) as int;
            assert(0 <= a <= b <= ws.len()) by {
                lemma_chunk_count(ws.len(), chunk, step);
                lemma_chunk_shape(ws.len(), chunk, step, i as nat);
            }
            assert(views(ws.subrange(a, b)) =~= views(ws).subrange(a, b));
        }
        assert(views(spec_chunk_items(ws, chunk, overlap)[i]) =~= spec_chunk_items(
            views(ws),
            chunk,
            overlap,
        )[i]);
    }
}

/// The chunks of the words of `s`, each with its words separated by single spaces.
pub open spec fn spec_chunk_text_by_words(s: Seq<char>, size: nat, overlap: nat) -> Seq<Seq<char>> {
    spec_chunk_items(words(s), size, overlap).map_values(|c: Seq<Seq<char>>| join(c, seq![' ']))
}

/// The items of the chunks are items of the input: where every item is a word, so is every
/// item of every chunk.
proof fn lemma_chunk_items_are_words(ws: Seq<Seq<char>>, chunk: nat, overlap: nat)
    requires
        forall|k: int| 0 <= k < ws.len() ==> is_word(#[trigger] ws[k]),
    ensures
        forall|i: int, j: int|
            0 <= i < spec_chunk_items(ws, chunk, overlap).len() && 0 <= j < spec_chunk_items(
                ws,
                chunk,
                overlap,
            )[i].len() ==> is_word(#[trigger] spec_chunk_items(ws, chunk, overlap)[i][j]),
{
    let cs = spec_chunk_items(ws, chunk, overlap);
    assert forall|i: int, j: int| 0 <= i < cs.len() && 0 <= j < cs[i].len() implies is_word(
        #[trigger] cs[i][j],
    ) by {
        match chunk_step(ws.len(), chunk, overlap) {
            None => {},
            Some(step) => {
                lemma_chunk_count(ws.len(), chunk, step);
                lemma_chunk_shape(ws.len(), chunk, step, i as nat);
                let a = (i * step) as int;
                assert(cs[i][j] == ws[a + j]);
            },
        }
    }
}

/// Law: each chunk's text splits into exactly the words of the chunk, so it holds the chunk's
/// number of words, and the words of all the chunk texts add up to the words of `s` plus one
/// overlap for every seam between two chunks.
pub proof fn lemma_chunk_text_word_counts(s: Seq<char>, size: nat, overlap: nat)
    ensures
        forall|i: int|
            0 <= i < spec_chunk_text_by_words(s, size, overlap).len() ==> words(
                #[trigger] spec_chunk_text_by_words(s, size, overlap)[i],
            ) == spec_chunk_items(words(s), size, overlap)[i],
        total_len(spec_chunk_text_by_words(s, size, overlap).map_values(|t: Seq<char>| words(t)))
            == words(s).len() + overlap * (spec_chunk_text_by_words(s, size, overlap).len() - 1),
{
    let cs = spec_chunk_items(words(s), size, overlap);
    let out = spec_chunk_text_by_words(s, size, overlap);
    lemma_words_are_words(s);
    lemma_chunk_items_are_words(words(s), size, overlap);
    assert forall|i: int| 0 <= i < out.len() implies words(#[trigger] out[i]) == cs[i] by {
        assert forall|j: int| 0 <= j < cs[i].len() implies is_word(#[trigger] cs[i][j]) by {
            assert(is_word(cs[i][j]));
        }
        lemma_words_of_join(cs[i]);
    }
    assert(out.map_values(|t: Seq<char>| words(t)) =~= cs);
    lemma_chunks_total_len(words(s), size, overlap);
}

/// Overlapping chunks of text by `size` words; returns 1 chunk if `size` <= `overlap`.
pub fn chunk_text_by_words(s: &str, size: usize, overlap: usize) -> (out: Vec<String>)
    ensures
        out@.len() == spec_chunk_text_by_words(s@, size as nat, overlap as nat).len(),
        forall|i: int|
            0 <= i < out@.len() ==> #[trigger] out@[i]@ == spec_chunk_text_by_words(
                s@,
                size as nat,
                overlap as nat,
            )[i],
        forall|i: int|
            0 <= i < out@.len() ==> words(#[trigger] out@[i]@) == spec_chunk_items(
                words(s@),
                size as nat,
                overlap as nat,
            )[i],
{
    let cs = to_chars(s);
    let ws = split_words(cs.as_slice());
    let chunks = chunk_items(ws.as_slice(), size, overlap);
    proof {
        assert(views(ws@).len() == ws@.len());
        lemma_chunks_of_views(ws@, size as nat, overlap as nat);
    }
    let sep: Vec<char> = vec![' '];
    assert(sep@ =~= seq![' ']);
    let mut out: Vec<String> = Vec::new();
    let mut i: usize = 0;
    while i < chunks.len()
        invariant
            i <= chunks@.len(),
            views(ws@) == words(s@),
            sep@ == seq![' '],
            chunks@.len() == spec_chunk_items(ws@, size as nat, overlap as nat).len(),
            forall|j: int|
                0 <= j < chunks@.len() ==> #[trigger] chunks@[j]@ == spec_chunk_items(
                    ws@,
                    size as nat,
                    overlap as nat,
                )[j],
            spec_chunk_items(views(ws@), size as nat, overlap as nat).len() == spec_chunk_items(
                ws@,
                size as nat,
                overlap as nat,
            ).len(),
            forall|j: int|
                0 <= j < spec_chunk_items(ws@, size as nat, overlap as nat).len() ==> views(
                    #[trigger] spec_chunk_items(ws@, size as nat, overlap as nat)[j],
                ) == spec_chunk_items(views(ws@), size as nat, overlap as nat)[j],
            out@.len() == i,
            forall|j: int|
                0 <= j < i ==> #[trigger] out@[j]@ == spec_chunk_text_by_words(
                    s@,
                    size as nat,
                    overlap as nat,
                )[j],
        decreases chunks@.len() - i,
    {
        let joined = join_chars(chunks[i], sep.as_slice());
        let text = from_chars(joined.as_slice());
        out.push(text);
        i = i + 1;
    }
    proof {
        lemma_chunk_text_word_counts(s@, size as nat, overlap as nat);
    }
    out
}

/// Chunks of `size` characters overlapping by `overlap` characters.
pub fn chunk_text_by_chars(s: &str, size: usize, overlap: usize) -> (out: Vec<String>)
    ensures
        out@.len() == spec_chunk_items(s@, size as nat, overlap as nat).len(),
        forall|i: int|
            0 <= i < out@.len() ==> #[trigger] out@[i]@ == spec_chunk_items(
                s@,
                size as nat,
                overlap as nat,
            )[i],
{
    let cs = to_chars(s);
    let chunks = chunk_items(cs.as_slice(), size, overlap);
    let mut out: Vec<String> = Vec::new();
    let mut i: usize = 0;
    while i < chunks.len()
        invariant
            i <= chunks@.len(),
            cs@ == s@,
            chunks@.len() == spec_chunk_items(s@, size as nat, overlap as nat).len(),
            forall|j: int|
                0 <= j < chunks@.len() ==> #[trigger] chunks@[j]@ == spec_chunk_items(
                    s@,
                    size as nat,
                    overlap as nat,
                )[j],
            out@.len() == i,
            forall|j: int|
                0 <= j < i ==> #[trigger] out@[j]@ == spec_chunk_items(
                    s@,
                    size as nat,
                    overlap as nat,
                )[j],
        decreases chunks@.len() - i,
    {
        let text = from_chars(chunks[i]);
        out.push(text);
        i = i + 1;
    }
    out
}

/// The words per chunk of a transcript that is summarized chunk by chunk.
pub const SUMMARY_CHUNK_WORDS: usize = 10_000;

/// The words shared by neighbouring chunks of a transcript.
pub const SUMMARY_CHUNK_OVERLAP: usize = 100;

/// The characters per message when a kept summary is streamed again.
pub const CACHED_SUMMARY_CHUNK_CHARS: usize = 4_000;

/// How a transcript is summarized: at once, or chunk by chunk and then combined.
#[derive(Debug)]
pub enum SummaryPlan {
    Oneshot,
    Chunked(Vec<String>),
}

/// A transcript that makes a single chunk is summarized at once; otherwise its chunks are
/// summarized one by one.
pub fn plan_summary(transcript: &str, size: usize, overlap: usize) -> (plan: SummaryPlan)
    ensures
        spec_chunk_text_by_words(transcript@, size as nat, overlap as nat).len() == 1 ==> plan is Oneshot,
        spec_chunk_text_by_words(transcript@, size as nat, overlap as nat).len() != 1 ==> (
        plan matches SummaryPlan::Chunked(chunks) && chunks.deep_view() == spec_chunk_text_by_words(
            transcript@,
            size as nat,
            overlap as nat,
        )),
{
    let chunks = chunk_text_by_words(transcript, size, overlap);
    if chunks.len() == 1 {
        SummaryPlan::Oneshot
    } else {
        assert(chunks.deep_view() =~= spec_chunk_text_by_words(
            transcript@,
            size as nat,
            overlap as nat,
        ));
        SummaryPlan::Chunked(chunks)
    }
}

/// The texts that accompany a prompt: the video's metadata, then `text`.
pub fn prompt_messages(ctx: &PromptContext, text: &str) -> (ms: Vec<String>)
    ensures
        ms@.len() == 2,
        ms@[0]@ == crate::prompts::metadata_prefix() + ctx@ + crate::prompts::metadata_suffix(),
        ms@[1]@ == text@,
{
    let mut ms: Vec<String> = Vec::new();
    ms.push(ctx.metadata());
    ms.push(String::from_str(text));
    ms
}

/// `chunk <k>/<n>` and a line feed.
pub open spec fn chunk_header(k: nat, n: nat) -> Seq<char> {
    seq!['c', 'h', 'u', 'n', 'k', ' '] + decimal(k) + seq!['/'] + decimal(n) + seq!['\n']
}

/// The summaries of the chunks, each headed by its number and the number of chunks, one
/// after the other on separate lines.
pub open spec fn spec_combine_summaries(summaries: Seq<Seq<char>>) -> Seq<char> {
    join(
        Seq::new(
            summaries.len(),
            |i: int| chunk_header((i + 1) as nat, summaries.len()) + summaries[i],
        ),
        seq!['\n'],
    )
}

/// Where the part of summary `i` begins in the combined text: every earlier part is its header
/// `chunk <k>/<n>` and a line feed, its summary, and the line feed that separates it.
pub open spec fn combined_offset(ss: Seq<Seq<char>>, i: nat) -> int
    decreases i,
{
    if i == 0 {
        0
    } else {
        combined_offset(ss, (i - 1) as nat) + 8 + decimal(i as nat).len() + decimal(ss.len()).len()
            + ss[i - 1].len() + 1
    }
}

/// The combined offsets are those of the joined parts.
proof fn lemma_combined_offset(ss: Seq<Seq<char>>, i: nat)
    requires
        i <= ss.len(),
    ensures
        combined_offset(ss, i) == join_offset(
            Seq::new(ss.len(), |k: int| chunk_header((k + 1) as nat, ss.len()) + ss[k]),
            1,
            i,
        ),
    decreases i,
{
    if i > 0 {
        lemma_combined_offset(ss, (i - 1) as nat);
    }
}

/// Law: the combined text is, for every summary in order, the header `chunk <i+1>/<n>` and a
/// line feed followed by that summary in full, with a line feed between each two parts and
/// nothing else.
pub proof fn lemma_combined_summaries(ss: Seq<Seq<char>>)
    ensures
        forall|i: int|
            0 <= i < ss.len() ==> #[trigger] spec_combine_summaries(ss).subrange(
                combined_offset(ss, i as nat),
                combined_offset(ss, (i + 1) as nat) - 1,
            ) == seq!['c', 'h', 'u', 'n', 'k', ' '] + decimal((i + 1) as nat) + seq!['/'] + decimal(
                ss.len(),
            ) + seq!['\n'] + ss[i],
        forall|i: int|
            0 <= i < ss.len() - 1 ==> #[trigger] spec_combine_summaries(ss)[combined_offset(
                ss,
                (i + 1) as nat,
            ) - 1] == '\n',
        spec_combine_summaries(ss).len() == (if ss.len() == 0 {
            0
        } else {
            combined_offset(ss, ss.len()) - 1
        }),
{
    let n = ss.len();
    let parts = Seq::new(n, |k: int| chunk_header((k + 1) as nat, n) + ss[k]);
    let sep = seq!['\n'];
    let text = spec_combine_summaries(ss);
    assert(text == join(parts, sep));
    lemma_join_parts(parts, sep);
    assert forall|i: int| 0 <= i < n implies #[trigger] text.subrange(
        combined_offset(ss, i as nat),
        combined_offset(ss, (i + 1) as nat) - 1,
    ) == seq!['c', 'h', 'u', 'n', 'k', ' '] + decimal((i + 1) as nat) + seq!['/'] + decimal(n)
        + seq!['\n'] + ss[i] by {
        lemma_combined_offset(ss, i as nat);
        lemma_combined_offset(ss, (i + 1) as nat);
        assert(parts[i] == chunk_header((i + 1) as nat, n) + ss[i]);
        assert(text.subrange(
            join_offset(parts, sep.len(), i as nat) as int,
            join_offset(parts, sep.len(), i as nat) + parts[i].len(),
        ) == parts[i]);
    }
    assert forall|i: int| 0 <= i < n - 1 implies #[trigger] text[combined_offset(ss, (i + 1) as nat) - 1]
        == '\n' by {
        lemma_combined_offset(ss, i as nat);
        lemma_combined_offset(ss, (i + 1) as nat);
        let a = join_offset(parts, sep.len(), i as nat) + parts[i].len();
        let b = join_offset(parts, sep.len(), (i + 1) as nat) as int;
        assert(b == a + 1);
        lemma_join_offset_grows(parts, sep.len(), i as nat, (n - 1) as nat);
        if i + 1 < n - 1 {
            lemma_join_offset_grows(parts, sep.len(), (i + 1) as nat, (n - 1) as nat);
        }
        assert(b <= text.len());
        assert(text.subrange(a, b) == sep);
        assert(text[b - 1] == text.subrange(a, b)[0]);
    }
    if n > 0 {
        lemma_combined_offset(ss, n);
        lemma_combined_offset(ss, (n - 1) as nat);
        assert(parts.last() == chunk_header(n, n) + ss[n - 1]);
    }
}

/// The summaries of the chunks combined into the text of the final prompt.
pub fn combine_summaries(summaries: &[String]) -> (out: String)
    ensures
        out@ == spec_combine_summaries(summaries.deep_view()),
{
    let n = summaries.len();
    let ghost target = Seq::new(
        summaries@.len(),
        |i: int| chunk_header((i + 1) as nat, summaries@.len()) + summaries@[i]@,
    );
    let mut parts: Vec<Vec<char>> = Vec::new();
    let mut i: usize = 0;
    while i < n
        invariant
            n == summaries@.len(),
            i <= n,
            views(parts@) == target.take(i as int),
            target == Seq::new(
                summaries@.len(),
                |i: int| chunk_header((i + 1) as nat, summaries@.len()) + summaries@[i]@,
            ),
        decreases n - i,
    {
        let mut part: Vec<char> = Vec::new();
        part.push('c');
        part.push('h');
        part.push('u');
        part.push('n');
        part.push('k');
        part.push(' ');
        push_decimal(&mut part, (i + 1) as u64);
        part.push('/');
        push_decimal(&mut part, n as u64);
        part.push('\n');
        let ghost header = part@;
        assert(header =~= chunk_header((i + 1) as nat, n as nat));
        let text = to_chars(summaries[i].as_str());
        let mut j: usize = 0;
        while j < text.len()
            invariant
                j <= text@.len(),
                part@ == header + text@.take(j as int),
            decreases text@.len() - j,
        {
            part.push(text[j]);
            assert(text@.take(j + 1) =~= text@.take(j as int).push(text@[j as int]));
            j = j + 1;
        }
        assert(text@.take(text@.len() as int) =~= text@);
        let ghost before = views(parts@);
        parts.push(part);
        assert(views(parts@) =~= before.push(target[i as int]));
        assert(target.take(i + 1) =~= target.take(i as int).push(target[i as int]));
        i = i + 1;
    }
    assert(target.take(n as int) =~= target);
    let sep: Vec<char> = vec!['\n'];
    assert(sep@ =~= seq!['\n']);
    let joined = join_chars(parts.as_slice(), sep.as_slice());
    assert(target =~= Seq::new(
        summaries.deep_view().len(),
        |i: int| chunk_header((i + 1) as nat, summaries.deep_view().len()) + summaries.deep_view()[i],
    ));
    from_chars(joined.as_slice())
}

/// The messages with which a kept summary is streamed again: its pieces of
/// `CACHED_SUMMARY_CHUNK_CHARS` characters, then the end.
pub fn cached_summary_messages(summary: &str) -> (ms: Vec<SseMessage>)
    ensures
        ms@.len() == spec_chunk_items(summary@, CACHED_SUMMARY_CHUNK_CHARS as nat, 0).len() + 1,
        forall|i: int|
            0 <= i < ms@.len() - 1 ==> (#[trigger] ms@[i] matches SseMessage::Message(s) && s@
                == spec_chunk_items(summary@, CACHED_SUMMARY_CHUNK_CHARS as nat, 0)[i]),
        ms@.last() is Done,
        is_replay(ms@, spec_chunk_items(summary@, CACHED_SUMMARY_CHUNK_CHARS as nat, 0)),
{
    let chunks = chunk_text_by_chars(summary, CACHED_SUMMARY_CHUNK_CHARS, 0);
    let mut ms: Vec<SseMessage> = Vec::new();
    let mut i: usize = 0;
    while i < chunks.len()
        invariant
            i <= chunks@.len(),
            chunks@.len() == spec_chunk_items(summary@, CACHED_SUMMARY_CHUNK_CHARS as nat, 0).len(),
            forall|j: int|
                0 <= j < chunks@.len() ==> #[trigger] chunks@[j]@ == spec_chunk_items(
                    summary@,
                    CACHED_SUMMARY_CHUNK_CHARS as nat,
                    0,
                )[j],
            ms@.len() == i,
            forall|j: int|
                0 <= j < i ==> (#[trigger] ms@[j] matches SseMessage::Message(s) && s@
                    == spec_chunk_items(summary@, CACHED_SUMMARY_CHUNK_CHARS as nat, 0)[j]),
        decreases chunks@.len() - i,
    {
        ms.push(SseMessage::Message(chunks[i].clone()));
        i = i + 1;
    }
    ms.push(SseMessage::Done);
    ms
}

/// Law: the pieces in which a kept summary is streamed again join up to the summary.
pub proof fn lemma_cached_summary_pieces(summary: Seq<char>)
    ensures
        spec_chunk_items(summary, CACHED_SUMMARY_CHUNK_CHARS as nat, 0).flatten() == summary,
{
    lemma_chunks_concat_without_overlap(summary, CACHED_SUMMARY_CHUNK_CHARS as nat);
}

/// Takes in one message of the summary stream: a piece of text is added to `summary`, the end
/// stops the stream and a failure is passed over. Returns whether the stream goes on.
pub fn absorb_message(summary: &mut String, msg: &SseMessage) -> (go_on: bool)
    ensures
        match msg {
            SseMessage::Message(s) => go_on && final(summary)@ == old(summary)@ + s@,
            SseMessage::Done => !go_on && final(summary)@ == old(summary)@,
            SseMessage::Error => go_on && final(summary)@ == old(summary)@,
        },
{
    match msg {
        SseMessage::Message(s) => {
            summary.append(s.as_str());
            true
        },
        SseMessage::Done => false,
        SseMessage::Error => true,
    }
}

/// The text that a summary stream carries: its pieces of text up to the first end, in order;
/// failures carry nothing.
pub open spec fn streamed_text(ms: Seq<SseMessage>) -> Seq<char>
    decreases ms.len(),
{
    if ms.len() == 0 {
        Seq::empty()
    } else {
        match ms[0] {
            SseMessage::Message(s) => s@ + streamed_text(ms.drop_first()),
            SseMessage::Done => Seq::empty(),
            SseMessage::Error => streamed_text(ms.drop_first()),
        }
    }
}

/// The summary that is kept of a stream: the messages are taken in one by one with
/// `absorb_message`, starting from no text, until the stream ends.
pub fn collect_summary(ms: &[SseMessage]) -> (summary: String)
    ensures
        summary@ == streamed_text(ms@),
{
    let mut summary = String::new();
    let mut i: usize = 0;
    assert(ms@.skip(0) =~= ms@);
    while i < ms.len()
        invariant
            i <= ms@.len(),
            summary@ + streamed_text(ms@.skip(i as int)) == streamed_text(ms@),
        decreases ms@.len() - i,
    {
        let ghost rest = ms@.skip(i as int);
        assert(rest[0] == ms@[i as int]);
        assert(rest.drop_first() =~= ms@.skip(i + 1));
        let ghost before = summary@;
        let go_on = absorb_message(&mut summary, &ms[i]);
        if !go_on {
            assert(summary@ =~= before);
            assert(before + Seq::<char>::empty() =~= before);
            return summary;
        }
        match &ms[i] {
            SseMessage::Message(t) => {
                assert(summary@ + streamed_text(ms@.skip(i + 1)) =~= before + (t@ + streamed_text(
                    rest.drop_first(),
                )));
            },
            _ => {},
        }
        i = i + 1;
    }
    assert(summary@ + Seq::<char>::empty() =~= summary@);
    summary
}

/// `replay` is the stream of `pieces` as a kept summary is streamed again: one message per
/// piece, in order, then the end.
pub open spec fn is_replay(replay: Seq<SseMessage>, pieces: Seq<Seq<char>>) -> bool {
    &&& replay.len() == pieces.len() + 1
    &&& forall|i: int|
        0 <= i < pieces.len() ==> (#[trigger] replay[i] matches SseMessage::Message(s) && s@
            == pieces[i])
    &&& replay.last() is Done
}

/// The text carried by a replayed stream is its pieces joined.
proof fn lemma_replay_text(replay: Seq<SseMessage>, pieces: Seq<Seq<char>>)
    requires
        is_replay(replay, pieces),
    ensures
        streamed_text(replay) == pieces.flatten(),
    decreases pieces.len(),
{
    if pieces.len() > 0 {
        let rest = replay.drop_first();
        assert forall|i: int| 0 <= i < pieces.drop_first().len() implies (#[trigger] rest[i] matches SseMessage::Message(s) && s@
            == pieces.drop_first()[i]) by {
            assert(rest[i] == replay[i + 1]);
        }
        assert(rest.last() == replay.last());
        lemma_replay_text(rest, pieces.drop_first());
        assert(replay[0] matches SseMessage::Message(s) && s@ == pieces[0]);
    }
}

/// Law: the messages with which a kept summary is streamed again carry exactly that summary.
pub proof fn lemma_replay_carries_summary(summary: Seq<char>, replay: Seq<SseMessage>)
    requires
        is_replay(replay, spec_chunk_items(summary, CACHED_SUMMARY_CHUNK_CHARS as nat, 0)),
    ensures
        streamed_text(replay) == summary,
{
    lemma_replay_text(replay, spec_chunk_items(summary, CACHED_SUMMARY_CHUNK_CHARS as nat, 0));
    lemma_cached_summary_pieces(summary);
}

/// Law: a summary kept from a stream `ms` (by `collect_summary`) and streamed again (by
/// `cached_summary_messages`) carries the same text as `ms` did, up to its first end.
pub proof fn lemma_replay_of_kept_summary(ms: Seq<SseMessage>, replay: Seq<SseMessage>)
    requires
        is_replay(replay, spec_chunk_items(streamed_text(ms), CACHED_SUMMARY_CHUNK_CHARS as nat, 0)),
    ensures
        streamed_text(replay) == streamed_text(ms),
{
    lemma_replay_carries_summary(streamed_text(ms), replay);
}

} // verus!
