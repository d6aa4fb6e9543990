//! How tags, notes, blocks and the history file are written and read, told by their characters.
use crate::outside::lowercase;
use crate::prompt::{
    final_head, final_position, head_position, history_split, intermediate_head, last_assistant,
    lemma_tag_lengths, native_blocks, rendered, rendered_all, role_of, tag_of, with_head,
    BlockText,
};
use crate::prompt_laws::{law_rendered_blocks_read_back, reads_back};
use crate::text::{
    decimal, find_from, lemma_find_from, lemma_find_from_is, occurs_at, trimmed,
    without_final_newlines,
};
use vstd::prelude::*;
use vstd::utf8::is_ascii_chars;

verus! {

/// A tag is the role between the two marks, with the first letter in upper case and every other
/// character as it is.
pub proof fn law_tag_names_the_role(role: Seq<char>)
    ensures
        ({
            let tag = tag_of(role);
            &&& tag.len() == role.len() + 4
            &&& tag.take(2) == "<｜"@
            &&& tag.skip(role.len() as int + 2) == "｜>"@
            &&& forall|i: int| 0 < i < role.len() ==> tag[i + 2] == #[trigger] role[i]
            &&& role.len() > 0 ==> tag[2] as int == role[0] as int - if 'a' <= role[0] <= 'z' {
                32int
            } else {
                0int
            }
        }),
{
    lemma_tag_lengths();
    let tag = tag_of(role);
    assert(tag.take(2) =~= "<｜"@);
    assert(tag.skip(role.len() as int + 2) =~= "｜>"@);
}

/// A block is written as its tag, its content as it is, and a line feed.
pub proof fn law_block_is_written_out(block: BlockText)
    ensures
        ({
            let n = tag_of(block.role).len() as int;
            let text = rendered(block);
            &&& text.len() == n + block.content.len() + 1
            &&& text.take(n) == tag_of(block.role)
            &&& text.subrange(n, n + block.content.len()) == block.content
            &&& text.last() == '\n'
        }),
{
    let n = tag_of(block.role).len() as int;
    let text = rendered(block);
    assert(text.take(n) =~= tag_of(block.role));
    assert(text.subrange(n, n + block.content.len()) =~= block.content);
}

/// A role is the name in its tag in lower case. Of a name in ASCII only the letters change.
pub proof fn law_role_is_in_lower_case(name: Seq<char>)
    ensures
        !is_ascii_chars(name) ==> role_of(name) == lowercase(name),
        is_ascii_chars(name) ==> role_of(name).len() == name.len() && forall|i: int|
            0 <= i < name.len() ==> #[trigger] role_of(name)[i] as int == name[i] as int + if 'A'
                <= name[i] <= 'Z' {
                32int
            } else {
                0int
            },
{
}

proof fn lemma_first_in_three(a: Seq<char>, p: Seq<char>, rest: Seq<char>, from: int)
    requires
        0 <= from <= a.len(),
        forall|j: int| from <= j < a.len() ==> !#[trigger] occurs_at(a + p, p, j),
    ensures
        find_from(a + p + rest, p, from) == Some(a.len() as int),
{
    let s = a + p + rest;
    let n = a.len() as int;
    assert(s.subrange(n, n + p.len()) =~= p);
    assert forall|j: int| from <= j < n implies !occurs_at(s, p, j) by {
        if occurs_at(s, p, j) {
            assert((a + p).subrange(j, j + p.len()) =~= s.subrange(j, j + p.len()));
            assert(occurs_at(a + p, p, j));
        }
    }
    lemma_find_from_is(s, p, from, n);
}

/// Reading a prompt block by block: behind text without a tag stands a tag, and behind it the body
/// of the block, up to the next tag or the end. The role is the trimmed name in lower case and the
/// content is the body without the line feeds at its end; what follows is read in the same way.
pub proof fn law_block_is_read(
    before: Seq<char>,
    name: Seq<char>,
    body: Seq<char>,
    rest: Seq<char>,
)
    requires
        forall|j: int| 0 <= j < before.len() ==> !#[trigger] occurs_at(before + "<｜"@, "<｜"@, j),
        forall|j: int| 0 <= j < name.len() ==> !#[trigger] occurs_at(name + "｜>"@, "｜>"@, j),
        forall|j: int| 0 <= j < body.len() ==> !#[trigger] occurs_at(body + rest, "<｜"@, j),
        rest.len() == 0 || occurs_at(rest, "<｜"@, 0),
    ensures
        native_blocks(before + "<｜"@ + name + "｜>"@ + body + rest) == seq![
            BlockText { role: role_of(trimmed(name)), content: without_final_newlines(body) },
        ] + native_blocks(rest),
{
    lemma_tag_lengths();
    let s = before + "<｜"@ + name + "｜>"@ + body + rest;
    let start = before.len() as int;
    let role_start = start + 2;
    let role_end = role_start + name.len();
    let content_start = role_end + 2;
    let content_end = content_start + body.len();
    assert(s =~= before + "<｜"@ + (name + "｜>"@ + body + rest));
    lemma_first_in_three(before, "<｜"@, name + "｜>"@ + body + rest, 0);
    let head = before + "<｜"@ + name;
    assert forall|j: int| role_start <= j < head.len() implies !#[trigger] occurs_at(
        head + "｜>"@,
        "｜>"@,
        j,
    ) by {
        if occurs_at(head + "｜>"@, "｜>"@, j) {
            let k = j - role_start;
            assert((head + "｜>"@).subrange(j, j + 2) =~= (name + "｜>"@).subrange(k, k + 2));
            assert(occurs_at(name + "｜>"@, "｜>"@, k));
        }
    }
    assert(s =~= head + "｜>"@ + (body + rest));
    lemma_first_in_three(head, "｜>"@, body + rest, role_start);
    assert forall|j: int| content_start <= j < content_end implies !occurs_at(s, "<｜"@, j) by {
        if occurs_at(s, "<｜"@, j) {
            let k = j - content_start;
            assert(s.subrange(j, j + 2) =~= (body + rest).subrange(k, k + 2));
            assert(occurs_at(body + rest, "<｜"@, k));
        }
    }
    if rest.len() > 0 {
        assert(s.subrange(content_end, content_end + 2) =~= rest.subrange(0, 2));
        lemma_find_from_is(s, "<｜"@, content_start, content_end);
    } else {
        lemma_find_from(s, "<｜"@, content_start);
    }
    assert(s.subrange(role_start, role_end) =~= name);
    assert(s.subrange(content_start, content_end) =~= body);
    assert(s.skip(content_end) =~= rest);
}

/// A prompt has no block exactly where it has no complete tag.
pub proof fn law_no_block_without_a_tag(s: Seq<char>)
    ensures
        native_blocks(s).len() == 0 <==> !exists|i: int, j: int|
            #![trigger occurs_at(s, "<｜"@, i), occurs_at(s, "｜>"@, j)]
            occurs_at(s, "<｜"@, i) && i + 2 <= j && occurs_at(s, "｜>"@, j),
{
    lemma_tag_lengths();
    lemma_find_from(s, "<｜"@, 0);
    if let Some(i) = find_from(s, "<｜"@, 0) {
        lemma_find_from(s, "｜>"@, i + 2);
        if let Some(j) = find_from(s, "｜>"@, i + 2) {
            assert(occurs_at(s, "<｜"@, i) && occurs_at(s, "｜>"@, j));
        }
    }
}

proof fn lemma_rendered_all_flattens(blocks: Seq<BlockText>)
    ensures
        rendered_all(blocks) == blocks.map_values(|b: BlockText| rendered(b)).flatten(),
    decreases blocks.len(),
{
    let texts = blocks.map_values(|b: BlockText| rendered(b));
    if blocks.len() > 0 {
        let front = blocks.drop_last();
        lemma_rendered_all_flattens(front);
        assert(texts.drop_last() =~= front.map_values(|b: BlockText| rendered(b)));
        texts.lemma_flatten_and_flatten_alt_are_equivalent();
        texts.drop_last().lemma_flatten_and_flatten_alt_are_equivalent();
    } else {
        assert(texts =~= seq![]);
    }
}

proof fn lemma_last_assistant_is(blocks: Seq<BlockText>, i: int)
    requires
        0 <= i < blocks.len(),
        blocks[i].role == "assistant"@,
        forall|j: int| i < j < blocks.len() ==> (#[trigger] blocks[j]).role != "assistant"@,
    ensures
        last_assistant(blocks) == Some(i),
    decreases blocks.len(),
{
    if i < blocks.len() - 1 {
        assert(blocks[blocks.len() - 1].role != "assistant"@);
        let front = blocks.drop_last();
        assert(front[i] == blocks[i]);
        assert forall|j: int| i < j < front.len() implies (#[trigger] front[j]).role
            != "assistant"@ by {
            assert(front[j] == blocks[j]);
        }
        lemma_last_assistant_is(front, i);
    }
}

proof fn lemma_no_assistant(blocks: Seq<BlockText>)
    requires
        forall|j: int| 0 <= j < blocks.len() ==> (#[trigger] blocks[j]).role != "assistant"@,
    ensures
        last_assistant(blocks) is None,
    decreases blocks.len(),
{
    if blocks.len() > 0 {
        let front = blocks.drop_last();
        assert(blocks[blocks.len() - 1].role != "assistant"@);
        assert forall|j: int| 0 <= j < front.len() implies (#[trigger] front[j]).role
            != "assistant"@ by {
            assert(front[j] == blocks[j]);
        }
        lemma_no_assistant(front);
    }
}

/// The history file holds every block but the last one of the assistant, written out in order
/// between its fixed lines, and no more. The assistant's block goes inline. Where the blocks read
/// back at all, they are read back from the file.
pub proof fn law_history_holds_all_other_blocks(prompt: Seq<char>, blocks: Seq<BlockText>, i: int)
    requires
        0 <= i < blocks.len(),
        blocks[i].role == "assistant"@,
        forall|j: int| i < j < blocks.len() ==> (#[trigger] blocks[j]).role != "assistant"@,
    ensures
        ({
            let (inline, history) = history_split(prompt, blocks);
            let others = blocks.take(i) + blocks.skip(i + 1);
            let first = "[file content end]\n\n"@;
            let last = "[file name]: IGNORE\n[file content begin]\n"@;
            let body = history.subrange(first.len() as int, history.len() - last.len());
            &&& inline == "<｜Assistant｜>"@ + blocks[i].content + "\n"@
            &&& history == first + body + last
            &&& body == others.map_values(|b: BlockText| rendered(b)).flatten()
            &&& (forall|j: int| 0 <= j < others.len() ==> reads_back(#[trigger] others[j]))
                ==> native_blocks(body) == others
        }),
{
    lemma_last_assistant_is(blocks, i);
    let (inline, history) = history_split(prompt, blocks);
    let others = blocks.take(i) + blocks.skip(i + 1);
    assert(blocks.remove(i) =~= others);
    let first = "[file content end]\n\n"@;
    let last = "[file name]: IGNORE\n[file content begin]\n"@;
    let body = history.subrange(first.len() as int, history.len() - last.len());
    lemma_rendered_all_flattens(others);
    assert(body =~= rendered_all(others));
    assert(history =~= first + body + last);
    reveal_strlit("assistant");
    reveal_strlit("<｜Assistant｜>");
    reveal_strlit("\n");
    lemma_tag_lengths();
    assert(tag_of("assistant"@) =~= "<｜Assistant｜>"@);
    assert(inline =~= "<｜Assistant｜>"@ + blocks[i].content + "\n"@);
    if forall|j: int| 0 <= j < others.len() ==> reads_back(#[trigger] others[j]) {
        law_rendered_blocks_read_back(others);
    }
}

/// Where the assistant has no block, the prompt goes inline as it is, and there is no history.
pub proof fn law_no_history_without_assistant(prompt: Seq<char>, blocks: Seq<BlockText>)
    requires
        forall|j: int| 0 <= j < blocks.len() ==> (#[trigger] blocks[j]).role != "assistant"@,
    ensures
        history_split(prompt, blocks) == (prompt, Seq::<char>::empty()),
{
    lemma_no_assistant(blocks);
}

/// A segment that opens with a tag has its note right behind the tag; any other has it at its very
/// beginning.
pub proof fn law_note_goes_behind_the_opening_tag(name: Seq<char>, rest: Seq<char>, head: Seq<char>)
    requires
        forall|j: int|
            0 <= j < name.len() + 2 ==> !#[trigger] occurs_at("<｜"@ + name + "｜>"@, "｜>"@, j),
    ensures
        ({
            let tag = "<｜"@ + name + "｜>"@;
            with_head(tag + rest, head_position(tag + rest), head) == tag + head + rest
        }),
{
    lemma_tag_lengths();
    let open = "<｜"@ + name;
    let chunk = open + "｜>"@ + rest;
    lemma_first_in_three(open, "｜>"@, rest, 0);
    assert(chunk.subrange(0, 2) =~= "<｜"@);
    assert(with_head(chunk, head_position(chunk), head) =~= open + "｜>"@ + head + rest);
}

/// A segment that opens with no complete tag has its note at its very beginning.
pub proof fn law_note_goes_first_without_a_tag(chunk: Seq<char>, head: Seq<char>)
    requires
        !occurs_at(chunk, "<｜"@, 0) || forall|j: int| !occurs_at(chunk, "｜>"@, j),
    ensures
        with_head(chunk, head_position(chunk), head) == head + chunk,
{
    lemma_tag_lengths();
    lemma_find_from(chunk, "｜>"@, 0);
    assert(with_head(chunk, 0, head) =~= head + chunk);
}

/// The last segment has its note right behind its first tag, wherever that stands.
pub proof fn law_final_note_goes_behind_the_first_tag(
    before: Seq<char>,
    name: Seq<char>,
    rest: Seq<char>,
    head: Seq<char>,
)
    requires
        forall|j: int| 0 <= j < before.len() ==> !#[trigger] occurs_at(before + "<｜"@, "<｜"@, j),
        forall|j: int|
            0 <= j < name.len() + 2 ==> !#[trigger] occurs_at("<｜"@ + name + "｜>"@, "｜>"@, j),
    ensures
        ({
            let chunk = before + "<｜"@ + name + "｜>"@ + rest;
            with_head(chunk, final_position(chunk), head) == before + "<｜"@ + name + "｜>"@ + head
                + rest
        }),
{
    lemma_tag_lengths();
    let chunk = before + "<｜"@ + name + "｜>"@ + rest;
    let n = before.len() as int;
    assert(chunk =~= before + "<｜"@ + (name + "｜>"@ + rest));
    lemma_first_in_three(before, "<｜"@, name + "｜>"@ + rest, 0);
    let open = before + "<｜"@ + name;
    assert forall|j: int| n <= j < open.len() implies !#[trigger] occurs_at(
        open + "｜>"@,
        "｜>"@,
        j,
    ) by {
        if occurs_at(open + "｜>"@, "｜>"@, j) {
            let k = j - n;
            assert((open + "｜>"@).subrange(j, j + 2) =~= ("<｜"@ + name + "｜>"@).subrange(k, k + 2));
            assert(occurs_at("<｜"@ + name + "｜>"@, "｜>"@, k));
        }
    }
    lemma_first_in_three(open, "｜>"@, rest, n + 2);
    if n == 0 {
        lemma_first_in_three(open, "｜>"@, rest, 0);
        assert(chunk.subrange(0, 2) =~= "<｜"@);
    } else {
        lemma_find_from(chunk, "<｜"@, 0);
    }
    assert(with_head(chunk, final_position(chunk), head) =~= before + "<｜"@ + name + "｜>"@ + head
        + rest);
}

/// The last segment has its note at its very beginning where it holds no complete tag.
pub proof fn law_final_note_goes_first_without_a_tag(chunk: Seq<char>, head: Seq<char>)
    requires
        (forall|j: int| !occurs_at(chunk, "<｜"@, j)) || (forall|j: int|
            !occurs_at(chunk, "｜>"@, j)),
    ensures
        with_head(chunk, final_position(chunk), head) == head + chunk,
{
    lemma_tag_lengths();
    lemma_find_from(chunk, "<｜"@, 0);
    lemma_find_from(chunk, "｜>"@, 0);
    if let Some(i) = find_from(chunk, "<｜"@, 0) {
        lemma_find_from(chunk, "｜>"@, i + 2);
    }
    assert(with_head(chunk, 0, head) =~= head + chunk);
}

/// The notes, word for word: each says which segment it stands in, and of how many.
pub proof fn law_notes_name_the_segment(idx: int, total: int)
    ensures
        intermediate_head(idx, total) == "（这是一个多段对话的第 "@ + decimal(idx) + ("/"@ + decimal(total)
            + (" 段，看到这句话时请不要阅读下文，禁止思考，直接回复\"收到第 "@ + decimal(idx)
            + " 段\"，请等我全部输入完毕再进行思考回答。）\n\n"@)),
        final_head(total) == "（这是分段对话的最后一段（第 "@ + decimal(total) + ("/"@ + decimal(total)
            + " 段）。前面所有段是连贯的同一段对话历史，请将所有片段视为完整上下文，并基于此正常回答下面的问题。）\n\n"@),
{
    assert(intermediate_head(idx, total) =~= "（这是一个多段对话的第 "@ + decimal(idx) + ("/"@ + decimal(
        total,
    ) + (" 段，看到这句话时请不要阅读下文，禁止思考，直接回复\"收到第 "@ + decimal(idx)
        + " 段\"，请等我全部输入完毕再进行思考回答。）\n\n"@)));
    assert(final_head(total) =~= "（这是分段对话的最后一段（第 "@ + decimal(total) + ("/"@ + decimal(total)
        + " 段）。前面所有段是连贯的同一段对话历史，请将所有片段视为完整上下文，并基于此正常回答下面的问题。）\n\n"@));
}

} // verus!
