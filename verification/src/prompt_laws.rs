//! What holds of cutting, wrapping and splitting prompts, whatever the prompt.
use crate::outside::ascii_lower;
use crate::prompt::{
    capitalized, final_position, flushed, head_position, history_file, history_split, last_assistant,
    lemma_tag_lengths, native_blocks, packed, pieces, prompt_blocks, prompt_chunks, rendered,
    rendered_all, role_of, with_head, BlockText, TAG_END, TAG_START,
};
use crate::text::{
    find_from, has_text, is_white_space, lemma_find_from, lemma_find_from_is, occurs_at, trimmed,
    without_final_newlines,
};
use vstd::prelude::*;
use vstd::utf8::is_ascii_chars;

verus! {

/// Texts put together in order.
pub open spec fn joined(parts: Seq<Seq<char>>) -> Seq<char>
    decreases parts.len(),
{
    if parts.len() == 0 {
        seq![]
    } else {
        parts.first() + joined(parts.drop_first())
    }
}

/// How many characters the first `k` texts hold.
pub open spec fn offset(parts: Seq<Seq<char>>, k: int) -> int {
    joined(parts.take(k)).len() as int
}

proof fn lemma_joined_add(a: Seq<Seq<char>>, b: Seq<Seq<char>>)
    ensures
        joined(a + b) == joined(a) + joined(b),
    decreases a.len(),
{
    if a.len() == 0 {
        assert(a + b =~= b);
        assert(joined(a) + joined(b) =~= joined(b));
    } else {
        assert((a + b).drop_first() =~= a.drop_first() + b);
        lemma_joined_add(a.drop_first(), b);
        assert(a.first() + (joined(a.drop_first()) + joined(b)) =~= a.first() + joined(
            a.drop_first(),
        ) + joined(b));
    }
}

proof fn lemma_joined_one(s: Seq<char>)
    ensures
        joined(seq![s]) == s,
{
    reveal_with_fuel(joined, 2);
    assert(joined(seq![s]) =~= s);
}

proof fn lemma_offset_add(a: Seq<Seq<char>>, b: Seq<Seq<char>>, k: int)
    requires
        0 <= k <= a.len() + b.len(),
    ensures
        k <= a.len() ==> offset(a + b, k) == offset(a, k),
        k >= a.len() ==> offset(a + b, k) == joined(a).len() + offset(b, k - a.len()),
{
    if k <= a.len() {
        assert((a + b).take(k) =~= a.take(k));
    }
    if k >= a.len() {
        assert((a + b).take(k) =~= a + b.take(k - a.len()));
        lemma_joined_add(a, b.take(k - a.len()));
    }
}

proof fn lemma_offset_ends(parts: Seq<Seq<char>>)
    ensures
        offset(parts, 0) == 0,
        offset(parts, parts.len() as int) == joined(parts).len(),
        parts.len() > 0 ==> offset(parts, 1) == parts[0].len(),
{
    assert(parts.take(0) =~= seq![]);
    assert(parts.take(parts.len() as int) =~= parts);
    if parts.len() > 0 {
        assert(parts.take(1) =~= seq![parts[0]]);
        lemma_joined_one(parts[0]);
    }
}

proof fn lemma_joined_flushed(current: Seq<char>)
    ensures
        joined(flushed(current)) == current,
{
    if current.len() == 0 {
        assert(current =~= seq![]);
    } else {
        lemma_joined_one(current);
    }
}

proof fn lemma_joined_pieces(s: Seq<char>, size: int)
    ensures
        joined(pieces(s, size)) == s,
    decreases s.len(),
{
    if s.len() == 0 {
        assert(s =~= seq![]);
    } else if size <= 0 || s.len() <= size {
        lemma_joined_one(s);
    } else {
        lemma_joined_pieces(s.skip(size), size);
        lemma_joined_one(s.take(size));
        lemma_joined_add(seq![s.take(size)], pieces(s.skip(size), size));
        assert(s.take(size) + s.skip(size) =~= s);
    }
}

proof fn lemma_joined_blocks(s: Seq<char>)
    ensures
        joined(prompt_blocks(s)) == s,
    decreases s.len(),
{
    if s.len() == 0 {
        assert(s =~= seq![]);
    } else {
        lemma_find_from(s, TAG_START@, 1);
        match find_from(s, TAG_START@, 1) {
            Some(i) => {
                lemma_joined_blocks(s.skip(i));
                lemma_joined_one(s.take(i));
                lemma_joined_add(seq![s.take(i)], prompt_blocks(s.skip(i)));
                assert(s.take(i) + s.skip(i) =~= s);
            },
            None => {
                lemma_joined_one(s);
            },
        }
    }
}

proof fn lemma_joined_packed(blocks: Seq<Seq<char>>, current: Seq<char>, size: int)
    ensures
        joined(packed(blocks, current, size)) == current + joined(blocks),
    decreases blocks.len(),
{
    lemma_joined_flushed(current);
    if blocks.len() == 0 {
        assert(current + joined(blocks) =~= current);
    } else {
        let block = blocks.first();
        let rest = blocks.drop_first();
        if block.len() > size {
            lemma_joined_packed(rest, seq![], size);
            lemma_joined_pieces(block, size);
            lemma_joined_add(flushed(current), pieces(block, size));
            lemma_joined_add(
                flushed(current) + pieces(block, size),
                packed(rest, seq![], size),
            );
            assert(current + block + (Seq::<char>::empty() + joined(rest)) =~= current + (block
                + joined(rest)));
        } else if current.len() + block.len() > size {
            lemma_joined_packed(rest, block, size);
            lemma_joined_add(flushed(current), packed(rest, block, size));
        } else {
            lemma_joined_packed(rest, current + block, size);
            assert(current + block + joined(rest) =~= current + (block + joined(rest)));
        }
    }
}

/// Cutting a prompt loses nothing: its chunks put together in order are the prompt.
pub proof fn law_chunks_hold_the_prompt(prompt: Seq<char>, size: int)
    ensures
        joined(prompt_chunks(prompt, size)) == prompt,
{
    lemma_joined_blocks(prompt);
    lemma_joined_packed(prompt_blocks(prompt), seq![], size);
    assert(Seq::<char>::empty() + prompt =~= prompt);
}

proof fn lemma_pieces_fit(s: Seq<char>, size: int)
    requires
        size > 0,
    ensures
        forall|i: int|
            0 <= i < pieces(s, size).len() ==> 0 < (#[trigger] pieces(s, size)[i]).len() <= size,
    decreases s.len(),
{
    if s.len() > size {
        let rest = pieces(s.skip(size), size);
        lemma_pieces_fit(s.skip(size), size);
        assert forall|i: int| 0 <= i < pieces(s, size).len() implies 0 < (#[trigger] pieces(
            s,
            size,
        )[i]).len() <= size by {
            if i > 0 {
                assert(pieces(s, size)[i] == rest[i - 1]);
            }
        }
    }
}

proof fn lemma_packed_fit(blocks: Seq<Seq<char>>, current: Seq<char>, size: int)
    requires
        size > 0,
        current.len() <= size,
    ensures
        forall|i: int|
            0 <= i < packed(blocks, current, size).len() ==> 0 < (#[trigger] packed(
                blocks,
                current,
                size,
            )[i]).len() <= size,
    decreases blocks.len(),
{
    if blocks.len() > 0 {
        let block = blocks.first();
        let rest = blocks.drop_first();
        let all = packed(blocks, current, size);
        let open = flushed(current);
        if block.len() > size {
            let inner = pieces(block, size);
            let tail = packed(rest, seq![], size);
            lemma_packed_fit(rest, seq![], size);
            lemma_pieces_fit(block, size);
            assert forall|i: int| 0 <= i < all.len() implies 0 < (#[trigger] all[i]).len()
                <= size by {
                if i >= open.len() + inner.len() {
                    assert(all[i] == tail[i - open.len() - inner.len()]);
                } else if i >= open.len() {
                    assert(all[i] == inner[i - open.len()]);
                }
            }
        } else if current.len() + block.len() > size {
            let tail = packed(rest, block, size);
            lemma_packed_fit(rest, block, size);
            assert forall|i: int| 0 <= i < all.len() implies 0 < (#[trigger] all[i]).len()
                <= size by {
                if i >= open.len() {
                    assert(all[i] == tail[i - open.len()]);
                }
            }
        } else {
            let merged = current + block;
            lemma_packed_fit(rest, merged, size);
            assert(all == packed(rest, merged, size));
        }
    }
}

/// Every chunk holds at least one character and at most `size`.
pub proof fn law_chunks_fit(prompt: Seq<char>, size: int)
    requires
        size > 0,
    ensures
        forall|i: int|
            0 <= i < prompt_chunks(prompt, size).len() ==> 0 < (#[trigger] prompt_chunks(
                prompt,
                size,
            )[i]).len() <= size,
{
    lemma_packed_fit(prompt_blocks(prompt), seq![], size);
}

proof fn lemma_packed_together(blocks: Seq<Seq<char>>, current: Seq<char>, size: int)
    requires
        current.len() + joined(blocks).len() <= size,
    ensures
        packed(blocks, current, size) == flushed(current + joined(blocks)),
    decreases blocks.len(),
{
    if blocks.len() == 0 {
        assert(current + joined(blocks) =~= current);
    } else {
        lemma_packed_together(blocks.drop_first(), current + blocks.first(), size);
        assert(current + blocks.first() + joined(blocks.drop_first()) =~= current + joined(
            blocks,
        ));
    }
}

/// A prompt that fits into one chunk is not cut.
pub proof fn law_fitting_prompt_is_one_chunk(prompt: Seq<char>, size: int)
    requires
        0 < prompt.len() <= size,
    ensures
        prompt_chunks(prompt, size) == seq![prompt],
{
    lemma_joined_blocks(prompt);
    lemma_packed_together(prompt_blocks(prompt), seq![], size);
    assert(Seq::<char>::empty() + prompt =~= prompt);
}

proof fn lemma_joined_bound(parts: Seq<Seq<char>>, size: int)
    requires
        forall|i: int| 0 <= i < parts.len() ==> (#[trigger] parts[i]).len() <= size,
    ensures
        parts.len() == 0 ==> joined(parts).len() == 0,
        parts.len() == 1 ==> joined(parts).len() <= size,
{
    if parts.len() == 1 {
        assert(parts =~= seq![parts[0]]);
        lemma_joined_one(parts[0]);
    }
}

/// A prompt that does not fit into one chunk is cut into two or more.
pub proof fn law_oversized_prompt_is_several_chunks(prompt: Seq<char>, size: int)
    requires
        0 < size < prompt.len(),
    ensures
        prompt_chunks(prompt, size).len() >= 2,
{
    law_chunks_fit(prompt, size);
    law_chunks_hold_the_prompt(prompt, size);
    lemma_joined_bound(prompt_chunks(prompt, size), size);
}

/// A cut at `at` that concerns block `j`, where the blocks begin at `base`: it stands in front of
/// the block, or inside the block, which is then longer than `size`.
pub open spec fn cuts_at(blocks: Seq<Seq<char>>, base: int, size: int, at: int, j: int) -> bool {
    ||| at == base + offset(blocks, j)
    ||| blocks[j].len() > size && base + offset(blocks, j) < at < base + offset(blocks, j + 1)
}

/// A cut at `at` concerns some block.
pub open spec fn is_cut(blocks: Seq<Seq<char>>, base: int, size: int, at: int) -> bool {
    exists|j: int| 0 <= j < blocks.len() && #[trigger] cuts_at(blocks, base, size, at, j)
}

proof fn lemma_cut_behind_first(blocks: Seq<Seq<char>>, base: int, size: int, at: int, delta: int)
    requires
        blocks.len() > 0,
        is_cut(blocks.drop_first(), base, size, at),
    ensures
        is_cut(blocks, base - blocks.first().len() + delta, size, at + delta),
{
    let rest = blocks.drop_first();
    let j = choose|j: int| 0 <= j < rest.len() && #[trigger] cuts_at(rest, base, size, at, j);
    let first = seq![blocks.first()];
    assert(first + rest =~= blocks);
    lemma_joined_one(blocks.first());
    lemma_offset_add(first, rest, j + 1);
    lemma_offset_add(first, rest, j + 2);
    assert(cuts_at(blocks, base - blocks.first().len() + delta, size, at + delta, j + 1));
}

proof fn lemma_piece_cuts(s: Seq<char>, size: int, k: int)
    requires
        size > 0,
        0 < k < pieces(s, size).len(),
    ensures
        0 < offset(pieces(s, size), k) < s.len(),
{
    let all = pieces(s, size);
    lemma_pieces_fit(s, size);
    lemma_joined_pieces(s, size);
    assert(all.take(k) + all.skip(k) =~= all);
    lemma_joined_add(all.take(k), all.skip(k));
    assert(all.take(k).first() == all[0]);
    assert(all.skip(k).first() == all[k]);
}

proof fn lemma_packed_cuts(blocks: Seq<Seq<char>>, current: Seq<char>, size: int, k: int)
    requires
        size > 0,
        0 < k < packed(blocks, current, size).len(),
    ensures
        is_cut(blocks, current.len() as int, size, offset(packed(blocks, current, size), k)),
    decreases blocks.len(),
{
    if blocks.len() > 0 {
        let base = current.len() as int;
        let block = blocks.first();
        let rest = blocks.drop_first();
        let open = flushed(current);
        lemma_joined_flushed(current);
        lemma_offset_ends(blocks);
        lemma_offset_ends(open);
        if block.len() > size {
            let inner = pieces(block, size);
            let tail = packed(rest, seq![], size);
            lemma_joined_pieces(block, size);
            lemma_joined_add(open, inner);
            lemma_offset_ends(inner);
            lemma_offset_ends(tail);
            lemma_offset_add(open + inner, tail, k);
            if k <= open.len() {
                lemma_offset_add(open, inner, k);
                assert(cuts_at(blocks, base, size, base, 0));
            } else if k < open.len() + inner.len() {
                lemma_offset_add(open, inner, k);
                lemma_piece_cuts(block, size, k - open.len());
                assert(cuts_at(
                    blocks,
                    base,
                    size,
                    base + offset(inner, k - open.len()),
                    0,
                ));
            } else if k == open.len() + inner.len() {
                assert(tail.len() > 0);
                if rest.len() == 0 {
                    assert(tail =~= seq![]);
                }
                assert(cuts_at(blocks, base, size, base + block.len(), 1));
            } else {
                let m = k - open.len() - inner.len();
                lemma_packed_cuts(rest, seq![], size, m);
                lemma_cut_behind_first(blocks, 0, size, offset(tail, m), base + block.len());
            }
        } else if current.len() + block.len() > size {
            let tail = packed(rest, block, size);
            lemma_offset_ends(tail);
            lemma_offset_add(open, tail, k);
            if k <= open.len() {
                assert(cuts_at(blocks, base, size, base, 0));
            } else {
                let m = k - open.len();
                lemma_packed_cuts(rest, block, size, m);
                lemma_cut_behind_first(blocks, block.len() as int, size, offset(tail, m), base);
            }
        } else {
            lemma_packed_cuts(rest, current + block, size, k);
            lemma_cut_behind_first(
                blocks,
                (current + block).len() as int,
                size,
                offset(packed(blocks, current, size), k),
                0,
            );
        }
    }
}

proof fn lemma_block_starts_at_tag(s: Seq<char>, j: int)
    requires
        0 < j < prompt_blocks(s).len(),
    ensures
        occurs_at(s, TAG_START@, offset(prompt_blocks(s), j)),
    decreases s.len(),
{
    lemma_find_from(s, TAG_START@, 1);
    let i = find_from(s, TAG_START@, 1)->0;
    let first = seq![s.take(i)];
    let rest = prompt_blocks(s.skip(i));
    lemma_joined_one(s.take(i));
    lemma_offset_add(first, rest, j);
    if j == 1 {
        lemma_offset_ends(rest);
    } else {
        lemma_block_starts_at_tag(s.skip(i), j - 1);
        let at = offset(rest, j - 1);
        assert(s.skip(i).subrange(at, at + TAG_START@.len()) =~= s.subrange(
            i + at,
            i + at + TAG_START@.len(),
        ));
    }
}

/// A prompt is cut in front of a tag, or else inside a block that is too long for one chunk: no
/// block that fits into a chunk is ever divided.
pub proof fn law_cuts_respect_blocks(prompt: Seq<char>, size: int, k: int)
    requires
        size > 0,
        0 < k < prompt_chunks(prompt, size).len(),
    ensures
        ({
            let at = offset(prompt_chunks(prompt, size), k);
            let blocks = prompt_blocks(prompt);
            ||| occurs_at(prompt, TAG_START@, at)
            ||| exists|j: int|
                0 <= j < blocks.len() && (#[trigger] blocks[j]).len() > size && offset(blocks, j)
                    < at < offset(blocks, j + 1)
        }),
{
    let chunks = prompt_chunks(prompt, size);
    let blocks = prompt_blocks(prompt);
    let at = offset(chunks, k);
    lemma_packed_cuts(blocks, seq![], size, k);
    let j = choose|j: int| 0 <= j < blocks.len() && #[trigger] cuts_at(blocks, 0, size, at, j);
    if at == offset(blocks, j) {
        if j == 0 {
            lemma_offset_ends(blocks);
            law_chunks_fit(prompt, size);
            assert(chunks.take(k).first() == chunks[0]);
            assert(false);
        } else {
            lemma_block_starts_at_tag(prompt, j);
        }
    }
}

/// Whether a prompt holds one message between `a` and `b`: a tag, or the beginning of the prompt,
/// stands at `a`, a tag, or the end of the prompt, at `b`, and no tag between them.
pub open spec fn is_message(s: Seq<char>, a: int, b: int) -> bool {
    &&& 0 <= a < b <= s.len()
    &&& a == 0 || occurs_at(s, TAG_START@, a)
    &&& b == s.len() || occurs_at(s, TAG_START@, b)
    &&& forall|p: int| a < p < b ==> !occurs_at(s, TAG_START@, p)
}

proof fn lemma_joined_part(parts: Seq<Seq<char>>, k: int)
    requires
        0 <= k < parts.len(),
    ensures
        offset(parts, k + 1) == offset(parts, k) + parts[k].len(),
        0 <= offset(parts, k),
        offset(parts, k + 1) <= joined(parts).len(),
        joined(parts).subrange(offset(parts, k), offset(parts, k + 1)) == parts[k],
{
    let before = parts.take(k);
    let after = parts.skip(k + 1);
    assert(parts.take(k + 1) =~= before + seq![parts[k]]);
    lemma_joined_one(parts[k]);
    lemma_joined_add(before, seq![parts[k]]);
    assert(parts =~= parts.take(k + 1) + after);
    lemma_joined_add(parts.take(k + 1), after);
    assert(joined(parts).subrange(offset(parts, k), offset(parts, k + 1)) =~= parts[k]);
}

/// A prompt is cut into blocks in front of every tag and nowhere else: every block but the first
/// opens with a tag, no block holds another one, and the blocks put together are the prompt.
pub proof fn law_every_tag_opens_a_block(s: Seq<char>)
    ensures
        joined(prompt_blocks(s)) == s,
        forall|j: int|
            0 <= j < prompt_blocks(s).len() ==> {
                &&& (#[trigger] prompt_blocks(s)[j]).len() > 0
                &&& j > 0 ==> occurs_at(prompt_blocks(s)[j], TAG_START@, 0)
                &&& forall|p: int| p > 0 ==> !occurs_at(prompt_blocks(s)[j], TAG_START@, p)
            },
        s.len() > 0 && occurs_at(s, TAG_START@, 0) ==> occurs_at(
            prompt_blocks(s)[0],
            TAG_START@,
            0,
        ),
    decreases s.len(),
{
    lemma_joined_blocks(s);
    lemma_tag_lengths();
    if s.len() > 0 {
        lemma_find_from(s, TAG_START@, 1);
        match find_from(s, TAG_START@, 1) {
            Some(i) => {
                let first = s.take(i);
                let rest = s.skip(i);
                law_every_tag_opens_a_block(rest);
                assert(rest.subrange(0, 2) =~= s.subrange(i, i + 2));
                assert forall|p: int| p > 0 implies !occurs_at(first, TAG_START@, p) by {
                    if occurs_at(first, TAG_START@, p) {
                        assert(s.subrange(p, p + 2) =~= first.subrange(p, p + 2));
                        assert(occurs_at(s, TAG_START@, p));
                    }
                }
                if occurs_at(s, TAG_START@, 0) {
                    assert(s.subrange(0, 2)[1] == s[1]);
                    assert(s.subrange(i, i + 2)[0] == s[i]);
                    assert(first.subrange(0, 2) =~= s.subrange(0, 2));
                }
                let blocks = prompt_blocks(s);
                assert(blocks == seq![first] + prompt_blocks(rest));
                assert forall|j: int| 0 <= j < blocks.len() implies {
                    &&& (#[trigger] blocks[j]).len() > 0
                    &&& j > 0 ==> occurs_at(blocks[j], TAG_START@, 0)
                    &&& forall|p: int| p > 0 ==> !occurs_at(blocks[j], TAG_START@, p)
                } by {
                    if j > 0 {
                        assert(blocks[j] == prompt_blocks(rest)[j - 1]);
                    }
                }
            },
            None => {},
        }
    }
}

proof fn lemma_block_is_message(s: Seq<char>, j: int)
    requires
        0 <= j < prompt_blocks(s).len(),
    ensures
        is_message(s, offset(prompt_blocks(s), j), offset(prompt_blocks(s), j + 1)),
{
    let blocks = prompt_blocks(s);
    let a = offset(blocks, j);
    let b = offset(blocks, j + 1);
    law_every_tag_opens_a_block(s);
    lemma_tag_lengths();
    lemma_joined_part(blocks, j);
    lemma_offset_ends(blocks);
    if j > 0 {
        lemma_block_starts_at_tag(s, j);
    }
    if j + 1 < blocks.len() {
        lemma_block_starts_at_tag(s, j + 1);
    }
    assert forall|p: int| a < p < b implies !occurs_at(s, TAG_START@, p) by {
        if occurs_at(s, TAG_START@, p) {
            assert(s.subrange(p, p + 2)[1] == s[p + 1]);
            if p + 2 <= b {
                assert(blocks[j].subrange(p - a, p - a + 2) =~= s.subrange(p, p + 2));
                assert(occurs_at(blocks[j], TAG_START@, p - a));
            } else {
                assert(s.subrange(b, b + 2)[0] == s[b]);
            }
        }
    }
}

/// Why a prompt is cut at `at` behind a chunk of `before` characters, as far as block `j` is
/// concerned: the cut stands in front of the block, which no longer fits into that chunk, unless
/// it or the block before is too long for any chunk; or the cut stands inside the block, which is
/// too long, and the chunk is full.
spec fn cut_reason(blocks: Seq<Seq<char>>, size: int, at: int, before: int, j: int) -> bool {
    ||| at == offset(blocks, j) && {
        ||| j > 0 && blocks[j - 1].len() > size
        ||| blocks[j].len() > size
        ||| before + blocks[j].len() > size
    }
    ||| before == size && blocks[j].len() > size && offset(blocks, j) < at < offset(blocks, j + 1)
}

spec fn has_reason(blocks: Seq<Seq<char>>, size: int, at: int, before: int) -> bool {
    exists|j: int| 0 <= j < blocks.len() && #[trigger] cut_reason(blocks, size, at, before, j)
}

proof fn lemma_reason_behind_first(blocks: Seq<Seq<char>>, size: int, at: int, before: int)
    requires
        blocks.len() > 0,
        has_reason(blocks.drop_first(), size, at, before),
    ensures
        has_reason(blocks, size, at + blocks.first().len(), before),
{
    let rest = blocks.drop_first();
    let j = choose|j: int| 0 <= j < rest.len() && #[trigger] cut_reason(rest, size, at, before, j);
    let first = seq![blocks.first()];
    assert(first + rest =~= blocks);
    lemma_joined_one(blocks.first());
    lemma_offset_add(first, rest, j + 1);
    lemma_offset_add(first, rest, j + 2);
    assert(cut_reason(blocks, size, at + blocks.first().len(), before, j + 1));
}

proof fn lemma_pieces_full(s: Seq<char>, size: int, i: int)
    requires
        size > 0,
        0 <= i < pieces(s, size).len() - 1,
    ensures
        pieces(s, size)[i].len() == size,
    decreases s.len(),
{
    if s.len() > size && i > 0 {
        lemma_pieces_full(s.skip(size), size, i - 1);
    }
}

proof fn lemma_packed_reasons(blocks: Seq<Seq<char>>, current: Seq<char>, size: int, k: int)
    requires
        size > 0,
        current.len() <= size,
        0 < k < packed(blocks, current, size).len(),
    ensures
        has_reason(
            blocks,
            size,
            offset(packed(blocks, current, size), k) - current.len(),
            packed(blocks, current, size)[k - 1].len() as int,
        ),
    decreases blocks.len(),
{
    if blocks.len() > 0 {
        let base = current.len() as int;
        let block = blocks.first();
        let rest = blocks.drop_first();
        let open = flushed(current);
        let all = packed(blocks, current, size);
        let before = all[k - 1].len() as int;
        lemma_joined_flushed(current);
        lemma_offset_ends(blocks);
        lemma_offset_ends(open);
        if block.len() > size {
            let inner = pieces(block, size);
            let tail = packed(rest, seq![], size);
            lemma_joined_pieces(block, size);
            lemma_joined_add(open, inner);
            lemma_offset_ends(inner);
            lemma_offset_ends(tail);
            lemma_offset_add(open + inner, tail, k);
            if k <= open.len() {
                lemma_offset_add(open, inner, k);
                assert(cut_reason(blocks, size, 0, before, 0));
            } else if k < open.len() + inner.len() {
                let m = k - open.len();
                lemma_offset_add(open, inner, k);
                lemma_piece_cuts(block, size, m);
                lemma_pieces_full(block, size, m - 1);
                assert(all[k - 1] == inner[m - 1]);
                assert(cut_reason(blocks, size, offset(inner, m), before, 0));
            } else if k == open.len() + inner.len() {
                if rest.len() == 0 {
                    assert(tail =~= seq![]);
                }
                assert(cut_reason(blocks, size, block.len() as int, before, 1));
            } else {
                let m = k - open.len() - inner.len();
                lemma_packed_reasons(rest, seq![], size, m);
                assert(all[k - 1] == tail[m - 1]);
                lemma_reason_behind_first(blocks, size, offset(tail, m), before);
            }
        } else if current.len() + block.len() > size {
            let tail = packed(rest, block, size);
            lemma_offset_ends(tail);
            lemma_offset_add(open, tail, k);
            if k <= open.len() {
                assert(all[k - 1] == current);
                assert(cut_reason(blocks, size, 0, before, 0));
            } else {
                let m = k - open.len();
                lemma_packed_reasons(rest, block, size, m);
                assert(all[k - 1] == tail[m - 1]);
                lemma_reason_behind_first(blocks, size, offset(tail, m) - block.len(), before);
            }
        } else {
            lemma_packed_reasons(rest, current + block, size, k);
            lemma_reason_behind_first(
                blocks,
                size,
                offset(all, k) - (current + block).len(),
                before,
            );
        }
    }
}

/// Why a prompt is cut where it is, told by its tags alone. A cut in front of a tag is made because
/// the next message does not fit into the chunk any more, or because it or the message before is
/// too long for any chunk; any other cut is made inside a message that is too long for any chunk,
/// and behind a chunk that is full.
pub proof fn law_chunks_are_packed(prompt: Seq<char>, size: int, k: int)
    requires
        size > 0,
        0 < k < prompt_chunks(prompt, size).len(),
    ensures
        ({
            let at = offset(prompt_chunks(prompt, size), k);
            let before = prompt_chunks(prompt, size)[k - 1].len();
            ||| occurs_at(prompt, TAG_START@, at) && exists|a: int, b: int|
                #![trigger is_message(prompt, a, at), is_message(prompt, at, b)]
                is_message(prompt, a, at) && is_message(prompt, at, b) && (at - a > size || b - at
                    > size || before + (b - at) > size)
            ||| before == size && exists|a: int, b: int| #[trigger]
                is_message(prompt, a, b) && a < at < b && b - a > size
        }),
{
    let chunks = prompt_chunks(prompt, size);
    let blocks = prompt_blocks(prompt);
    let at = offset(chunks, k);
    let before = chunks[k - 1].len() as int;
    law_chunks_fit(prompt, size);
    lemma_packed_reasons(blocks, seq![], size, k);
    let j = choose|j: int| 0 <= j < blocks.len() && #[trigger] cut_reason(
        blocks,
        size,
        at,
        before,
        j,
    );
    lemma_block_is_message(prompt, j);
    lemma_joined_part(blocks, j);
    if at == offset(blocks, j) {
        lemma_offset_ends(blocks);
        if j == 0 {
            assert(chunks.take(k).first() == chunks[0]);
            assert(false);
        }
        lemma_block_starts_at_tag(prompt, j);
        lemma_block_is_message(prompt, j - 1);
        lemma_joined_part(blocks, j - 1);
        assert(is_message(prompt, offset(blocks, j - 1), at));
        assert(is_message(prompt, at, offset(blocks, j + 1)));
    } else {
        assert(is_message(prompt, offset(blocks, j), offset(blocks, j + 1)));
    }
}

/// Whether a chunk begins at `at`, or the last one ends there.
pub open spec fn is_boundary(chunks: Seq<Seq<char>>, at: int) -> bool {
    exists|k: int| 0 <= k <= chunks.len() && #[trigger] offset(chunks, k) == at
}

proof fn lemma_boundary_behind(a: Seq<Seq<char>>, b: Seq<Seq<char>>, at: int)
    requires
        is_boundary(b, at),
    ensures
        is_boundary(a + b, joined(a).len() + at),
{
    let k = choose|k: int| 0 <= k <= b.len() && #[trigger] offset(b, k) == at;
    lemma_offset_add(a, b, a.len() + k);
    assert(offset(a + b, a.len() + k) == joined(a).len() + at);
}

proof fn lemma_packed_alone(blocks: Seq<Seq<char>>, current: Seq<char>, size: int, j: int)
    requires
        size > 0,
        0 <= j < blocks.len(),
        blocks[j].len() > size,
    ensures
        is_boundary(packed(blocks, current, size), current.len() + offset(blocks, j)),
        is_boundary(packed(blocks, current, size), current.len() + offset(blocks, j + 1)),
    decreases blocks.len(),
{
    let block = blocks.first();
    let rest = blocks.drop_first();
    let open = flushed(current);
    let all = packed(blocks, current, size);
    let first = seq![block];
    lemma_joined_flushed(current);
    lemma_joined_one(block);
    lemma_offset_ends(blocks);
    assert(first + rest =~= blocks);
    if j > 0 {
        lemma_offset_add(first, rest, j);
        lemma_offset_add(first, rest, j + 1);
    }
    if block.len() > size {
        let inner = pieces(block, size);
        let tail = packed(rest, seq![], size);
        lemma_joined_pieces(block, size);
        lemma_joined_add(open, inner);
        if j == 0 {
            lemma_offset_add(open + inner, tail, open.len() as int);
            lemma_offset_add(open, inner, open.len() as int);
            lemma_offset_ends(open);
            lemma_offset_add(open + inner, tail, (open + inner).len() as int);
            lemma_offset_ends(open + inner);
            assert(offset(all, open.len() as int) == current.len());
            assert(offset(all, (open + inner).len() as int) == current.len() + block.len());
        } else {
            lemma_packed_alone(rest, seq![], size, j - 1);
            lemma_boundary_behind(open + inner, tail, offset(rest, j - 1));
            lemma_boundary_behind(open + inner, tail, offset(rest, j));
        }
    } else if current.len() + block.len() > size {
        let tail = packed(rest, block, size);
        lemma_packed_alone(rest, block, size, j - 1);
        lemma_boundary_behind(open, tail, block.len() + offset(rest, j - 1));
        lemma_boundary_behind(open, tail, block.len() + offset(rest, j));
    } else {
        lemma_packed_alone(rest, current + block, size, j - 1);
    }
}

/// Which block a message is.
proof fn lemma_message_is_block(s: Seq<char>, a: int, b: int) -> (j: int)
    requires
        is_message(s, a, b),
    ensures
        0 <= j < prompt_blocks(s).len(),
        offset(prompt_blocks(s), j) == a,
        offset(prompt_blocks(s), j + 1) == b,
{
    let blocks = prompt_blocks(s);
    lemma_joined_blocks(s);
    lemma_offset_ends(blocks);
    let j = lemma_block_around(blocks, a);
    lemma_block_is_message(s, j);
    lemma_joined_part(blocks, j);
    j
}

/// The part of a list of texts that holds a position.
proof fn lemma_block_around(parts: Seq<Seq<char>>, at: int) -> (j: int)
    requires
        0 <= at < joined(parts).len(),
    ensures
        0 <= j < parts.len(),
        offset(parts, j) <= at < offset(parts, j + 1),
    decreases parts.len(),
{
    let front = parts.drop_last();
    let n = parts.len() - 1;
    if parts.len() == 0 {
        assert(false);
        0
    } else {
        lemma_offset_ends(parts);
        assert(parts.take(n) =~= front);
        if at >= joined(front).len() {
            n
        } else {
            let j = lemma_block_around(front, at);
            assert(parts.take(j) =~= front.take(j));
            assert(parts.take(j + 1) =~= front.take(j + 1));
            j
        }
    }
}

/// A message that is too long for a chunk shares no chunk with another: one chunk begins where it
/// begins, and one ends where it ends.
pub proof fn law_oversized_message_stands_alone(prompt: Seq<char>, size: int, a: int, b: int)
    requires
        size > 0,
        is_message(prompt, a, b),
        b - a > size,
    ensures
        is_boundary(prompt_chunks(prompt, size), a),
        is_boundary(prompt_chunks(prompt, size), b),
{
    let blocks = prompt_blocks(prompt);
    let j = lemma_message_is_block(prompt, a, b);
    lemma_joined_part(blocks, j);
    lemma_packed_alone(blocks, seq![], size, j);
}

/// A message that fits into a chunk is never divided: no cut falls inside it.
pub proof fn law_fitting_message_is_not_divided(prompt: Seq<char>, size: int, a: int, b: int, k: int)
    requires
        size > 0,
        is_message(prompt, a, b),
        b - a <= size,
        0 < k < prompt_chunks(prompt, size).len(),
    ensures
        !(a < offset(prompt_chunks(prompt, size), k) < b),
{
    let at = offset(prompt_chunks(prompt, size), k);
    law_chunks_are_packed(prompt, size, k);
    if a < at < b {
        assert(!occurs_at(prompt, TAG_START@, at));
        let (c, d) = choose|c: int, d: int| #[trigger]
            is_message(prompt, c, d) && c < at < d && d - c > size;
        assert(c == a);
        assert(d == b);
    }
}

/// A note is put into a chunk in one place and changes nothing else: without the note the chunk is
/// what it was. This holds of both places at which notes are put.
pub proof fn law_head_leaves_the_chunk(chunk: Seq<char>, at: int, head: Seq<char>)
    requires
        at == head_position(chunk) || at == final_position(chunk),
    ensures
        ({
            let wrapped = with_head(chunk, at, head);
            &&& 0 <= at <= chunk.len()
            &&& wrapped.subrange(at, at + head.len()) == head
            &&& wrapped.take(at) + wrapped.skip(at + head.len()) == chunk
        }),
{
    let wrapped = with_head(chunk, at, head);
    lemma_find_from(chunk, TAG_END@, 0);
    lemma_find_from(chunk, TAG_START@, 0);
    if let Some(i) = find_from(chunk, TAG_START@, 0) {
        lemma_find_from(chunk, TAG_END@, i + TAG_START@.len());
    }
    assert(wrapped.subrange(at, at + head.len()) =~= head);
    assert(wrapped.take(at) + wrapped.skip(at + head.len()) =~= chunk);
}

/// The note of the last segment stands right behind a closing mark that follows the first opening
/// mark, unless the segment holds no complete tag.
pub proof fn law_final_note_follows_the_first_tag(chunk: Seq<char>)
    ensures
        ({
            let at = final_position(chunk);
            ||| {
                &&& at == 0
                &&& forall|i: int, j: int| #[trigger]
                    occurs_at(chunk, TAG_START@, i) && i + TAG_START@.len() <= j
                        ==> !#[trigger] occurs_at(chunk, TAG_END@, j)
            }
            ||| {
                &&& occurs_at(chunk, TAG_END@, at - TAG_END@.len())
                &&& exists|i: int|
                    {
                        &&& #[trigger] occurs_at(chunk, TAG_START@, i)
                        &&& i < at - TAG_END@.len()
                        &&& forall|k: int| 0 <= k < i ==> !occurs_at(chunk, TAG_START@, k)
                    }
            }
        }),
{
    lemma_tag_lengths();
    lemma_find_from(chunk, TAG_END@, 0);
    lemma_find_from(chunk, TAG_START@, 0);
    if let Some(i) = find_from(chunk, TAG_START@, 0) {
        lemma_find_from(chunk, TAG_END@, i + TAG_START@.len());
        if occurs_at(chunk, TAG_START@, 0) {
            assert(i == 0);
            if let Some(j) = find_from(chunk, TAG_END@, 0) {
                assert(chunk.subrange(0, 2)[0] == chunk[0]);
                assert(chunk.subrange(j, j + 2)[0] == chunk[j]);
            }
        }
    }
}

proof fn lemma_last_assistant(blocks: Seq<BlockText>)
    ensures
        last_assistant(blocks) matches Some(i) ==> {
            &&& 0 <= i < blocks.len()
            &&& blocks[i].role == "assistant"@
            &&& forall|j: int| i < j < blocks.len() ==> (#[trigger] blocks[j]).role != "assistant"@
        },
        last_assistant(blocks) is None ==> forall|j: int|
            0 <= j < blocks.len() ==> (#[trigger] blocks[j]).role != "assistant"@,
    decreases blocks.len(),
{
    if blocks.len() > 0 && blocks.last().role != "assistant"@ {
        let front = blocks.drop_last();
        lemma_last_assistant(front);
        assert forall|j: int|
            (last_assistant(blocks) matches Some(i) ==> i < j) && 0 <= j < blocks.len() implies (
        #[trigger] blocks[j]).role != "assistant"@ by {
            if j < front.len() {
                assert(front[j] == blocks[j]);
            }
        }
    }
}

/// Splitting off the history loses no block: where the assistant has a block, the last one of them
/// goes inline and every other block goes into the history file, in the order of the prompt. Where
/// it has none, the whole prompt goes inline and there is no history.
pub proof fn law_history_keeps_every_block(prompt: Seq<char>)
    ensures
        ({
            let blocks = native_blocks(prompt);
            let (inline, history) = history_split(prompt, blocks);
            ||| {
                &&& forall|j: int|
                    0 <= j < blocks.len() ==> (#[trigger] blocks[j]).role != "assistant"@
                &&& inline == prompt
                &&& history.len() == 0
            }
            ||| exists|i: int|
                {
                    &&& 0 <= i < blocks.len()
                    &&& (#[trigger] blocks[i]).role == "assistant"@
                    &&& forall|j: int|
                        i < j < blocks.len() ==> (#[trigger] blocks[j]).role != "assistant"@
                    &&& inline == rendered(blocks[i])
                    &&& history == history_file(blocks.take(i) + blocks.skip(i + 1))
                    &&& history.len() > 0
                }
        }),
{
    let blocks = native_blocks(prompt);
    lemma_last_assistant(blocks);
    match last_assistant(blocks) {
        Some(i) => {
            assert(blocks.remove(i) =~= blocks.take(i) + blocks.skip(i + 1));
            assert(history_file(blocks.remove(i)).len() > 0) by {
                reveal_strlit("[file content end]\n\n");
            }
            assert(blocks[i].role == "assistant"@);
        },
        None => {},
    }
}

/// A block that reads back as it was written: its role is what its tag says, the tag closes where
/// the role ends, and the content holds no tag and does not end with a line feed.
pub open spec fn reads_back(block: BlockText) -> bool {
    &&& role_of(trimmed(capitalized(block.role))) == block.role
    &&& find_from(capitalized(block.role) + TAG_END@, TAG_END@, 0) == Some(block.role.len() as int)
    &&& !has_text(block.content, TAG_START@)
    &&& block.content.len() > 0 ==> block.content.last() != '\n'
}

proof fn lemma_rendered_first(blocks: Seq<BlockText>)
    requires
        blocks.len() > 0,
    ensures
        rendered_all(blocks) == rendered(blocks.first()) + rendered_all(blocks.drop_first()),
    decreases blocks.len(),
{
    if blocks.len() == 1 {
        assert(blocks.drop_last() =~= seq![]);
        assert(blocks.drop_first() =~= seq![]);
        assert(rendered_all(blocks) =~= rendered(blocks.first()) + rendered_all(
            blocks.drop_first(),
        ));
    } else {
        lemma_rendered_first(blocks.drop_last());
        assert(blocks.drop_last().drop_first() =~= blocks.drop_first().drop_last());
        assert(blocks.drop_first().last() == blocks.last());
        assert(rendered_all(blocks) =~= rendered(blocks.first()) + rendered_all(
            blocks.drop_first(),
        ));
    }
}

proof fn lemma_reads_first(block: BlockText, rest: Seq<char>)
    requires
        reads_back(block),
        rest.len() == 0 || occurs_at(rest, TAG_START@, 0),
    ensures
        native_blocks(rendered(block) + rest) == seq![block] + native_blocks(rest),
{
    let name = capitalized(block.role);
    let s = rendered(block) + rest;
    lemma_tag_lengths();
    assert(s =~= TAG_START@ + name + TAG_END@ + block.content + seq!['\n'] + rest);
    let end = 2 + name.len() as int;
    let content_start = end + 2;
    let content_end = content_start + block.content.len() as int + 1;
    // The tag opens at the beginning.
    assert(s.subrange(0, 2) =~= TAG_START@);
    assert(find_from(s, TAG_START@, 0) == Some(0int));
    // The role ends where the tag closes.
    lemma_find_from(name + TAG_END@, TAG_END@, 0);
    assert forall|j: int| 2 <= j < end implies !occurs_at(s, TAG_END@, j) by {
        assert(!occurs_at(name + TAG_END@, TAG_END@, j - 2));
        assert((name + TAG_END@).subrange(j - 2, j) =~= s.subrange(j, j + 2));
    }
    assert(s.subrange(end, end + 2) =~= TAG_END@);
    lemma_find_from_is(s, TAG_END@, 2, end);
    // The content ends at the next tag or at the end.
    assert forall|j: int| content_start <= j < content_end implies !occurs_at(
        s,
        TAG_START@,
        j,
    ) by {
        let k = j - content_start;
        if occurs_at(s, TAG_START@, j) {
            assert(s.subrange(j, j + 2)[0] == s[j]);
            assert(s.subrange(j, j + 2)[1] == s[j + 1]);
            if k + 2 <= block.content.len() {
                assert(block.content.subrange(k, k + 2) =~= s.subrange(j, j + 2));
                assert(occurs_at(block.content, TAG_START@, k));
            } else if k + 1 == block.content.len() {
                assert(s[j + 1] == '\n');
            } else {
                assert(s[j] == '\n');
            }
        }
    }
    lemma_find_from(s, TAG_START@, content_start);
    if rest.len() > 0 {
        assert(rest.subrange(0, 2) =~= s.subrange(content_end, content_end + 2));
        lemma_find_from_is(s, TAG_START@, content_start, content_end);
    } else {
        match find_from(s, TAG_START@, content_start) {
            Some(i) => {
                assert(i < content_end);
            },
            None => {},
        }
    }
    assert(s.subrange(2, end) =~= name);
    let written = s.subrange(content_start, content_end);
    assert(written =~= block.content.push('\n'));
    assert(written.drop_last() =~= block.content);
    assert(without_final_newlines(written) == without_final_newlines(block.content));
    assert(s.skip(content_end) =~= rest);
}

/// Blocks that are written out read back as they were, one for one and in order.
pub proof fn law_rendered_blocks_read_back(blocks: Seq<BlockText>)
    requires
        forall|i: int| 0 <= i < blocks.len() ==> reads_back(#[trigger] blocks[i]),
    ensures
        native_blocks(rendered_all(blocks)) == blocks,
    decreases blocks.len(),
{
    lemma_tag_lengths();
    if blocks.len() == 0 {
        assert(native_blocks(rendered_all(blocks)) =~= blocks);
    } else {
        let rest = blocks.drop_first();
        let text = rendered_all(rest);
        lemma_rendered_first(blocks);
        if rest.len() > 0 {
            lemma_rendered_first(rest);
            assert(text.subrange(0, 2) =~= TAG_START@);
        }
        assert(reads_back(blocks[0]));
        assert forall|i: int| 0 <= i < rest.len() implies reads_back(#[trigger] rest[i]) by {
            assert(rest[i] == blocks[i + 1]);
        }
        law_rendered_blocks_read_back(rest);
        lemma_reads_first(blocks.first(), text);
        assert(seq![blocks.first()] + rest =~= blocks);
    }
}

/// A role of the letters `a` to `z`, such as `assistant`, is named by its tag: the tag reads back
/// as the role.
pub proof fn law_letter_roles_read_back(role: Seq<char>)
    requires
        forall|i: int| 0 <= i < role.len() ==> 'a' <= #[trigger] role[i] <= 'z',
    ensures
        role_of(trimmed(capitalized(role))) == role,
        find_from(capitalized(role) + TAG_END@, TAG_END@, 0) == Some(role.len() as int),
{
    let name = capitalized(role);
    lemma_tag_lengths();
    assert forall|i: int| 0 <= i < name.len() implies !is_white_space(name[i]) && ascii_lower(
        name[i],
    ) == role[i] && name[i] != '｜' && (name[i] as nat) < 128 by {
        assert('a' <= role[i] <= 'z');
        assert('a' <= role[0] <= 'z');
    }
    if name.len() > 0 {
        assert(!is_white_space(name[0]));
        assert(!is_white_space(name[name.len() - 1]));
    }
    assert(trimmed(name) == name);
    assert(is_ascii_chars(name));
    assert(name.map_values(|c: char| ascii_lower(c)) =~= role);
    let tag = name + TAG_END@;
    assert forall|j: int| 0 <= j < role.len() implies !occurs_at(tag, TAG_END@, j) by {
        if occurs_at(tag, TAG_END@, j) {
            assert(tag.subrange(j, j + 2)[0] == name[j]);
        }
    }
    assert(tag.subrange(role.len() as int, role.len() as int + 2) =~= TAG_END@);
    lemma_find_from_is(tag, TAG_END@, 0, role.len() as int);
}

} // verus!
