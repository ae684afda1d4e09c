//! What holds of every parse: the tree spells the grammar bytes of the text it
//! was read from, brackets match, loops have bodies, and comments do not count.

use crate::parser::ast::{ASTBranch, Element, Operation};
use crate::parser::grammar::{
    branch_at, branch_bounds, byte_of, element_at, element_bounds, elements_at, elements_bounds,
    first_token, first_token_bounds, is_grammar_byte, loop_at, loop_bounds, operation_of, Parse,
    CLOSE, OPEN,
};
use crate::parser::parse::{agrees_on_text, ParseError};
use vstd::prelude::*;
use vstd::string::StringSliceAdditionalSpecFns;

verus! {

/// The grammar bytes of a text, in order: the text without its comments.
pub open spec fn strip(text: Seq<u8>) -> Seq<u8>
    decreases text.len(),
{
    if text.len() == 0 {
        Seq::empty()
    } else if is_grammar_byte(text[0]) {
        seq![text[0]] + strip(text.skip(1))
    } else {
        strip(text.skip(1))
    }
}

/// An element written out in grammar bytes.
pub open spec fn render_element(element: Element) -> Seq<u8>
    decreases element,
{
    match element {
        Element::Operation(op) => seq![byte_of(op)],
        Element::Loop(body) => seq![OPEN] + render(body) + seq![CLOSE],
    }
}

/// A list of elements written out in grammar bytes.
pub open spec fn render(block: Seq<Element>) -> Seq<u8>
    decreases block,
{
    if block.len() == 0 {
        Seq::empty()
    } else {
        render_element(block[0]) + render(block.skip(1))
    }
}

/// Every loop of the element, at any depth, has at least one element.
pub open spec fn element_has_bodies(element: Element) -> bool
    decreases element,
{
    match element {
        Element::Operation(op) => true,
        Element::Loop(body) => body.len() > 0 && forall|i: int|
            0 <= i < body.len() ==> element_has_bodies(#[trigger] body[i]),
    }
}

/// Every loop of the block, at any depth, has at least one element.
pub open spec fn loops_have_bodies(block: Seq<Element>) -> bool {
    forall|i: int| 0 <= i < block.len() ==> element_has_bodies(#[trigger] block[i])
}

/// How many `[` of the text are still open at its end: the number of `[`
/// less the number of `]`.
pub open spec fn depth(tokens: Seq<u8>) -> int
    decreases tokens.len(),
{
    if tokens.len() == 0 {
        0
    } else {
        depth(tokens.drop_last()) + if tokens.last() == OPEN {
            1int
        } else if tokens.last() == CLOSE {
            -1int
        } else {
            0int
        }
    }
}

/// Every `[` has its `]` and every `]` its `[`: no `]` comes before its `[`,
/// and none is open at the end.
pub open spec fn balanced(tokens: Seq<u8>) -> bool {
    &&& depth(tokens) == 0
    &&& forall|k: int| 0 <= k <= tokens.len() ==> depth(#[trigger] tokens.take(k)) >= 0
}

/// The grammar bytes of two texts joined are those of the one, then those of
/// the other.
pub proof fn strip_concat(a: Seq<u8>, b: Seq<u8>)
    ensures
        strip(a + b) == strip(a) + strip(b),
    decreases a.len(),
{
    if a.len() == 0 {
        assert(a + b =~= b);
        assert(strip(a) + strip(b) =~= strip(b));
    } else {
        assert((a + b).skip(1) =~= a.skip(1) + b);
        strip_concat(a.skip(1), b);
        assert((a + b)[0] == a[0]);
        if is_grammar_byte(a[0]) {
            assert(seq![a[0]] + (strip(a.skip(1)) + strip(b)) =~= (seq![a[0]] + strip(
                a.skip(1),
            )) + strip(b));
        }
    }
}

/// A text of comments has no grammar bytes.
pub proof fn strip_comments(text: Seq<u8>)
    requires
        forall|k: int| 0 <= k < text.len() ==> !is_grammar_byte(#[trigger] text[k]),
    ensures
        strip(text) == Seq::<u8>::empty(),
    decreases text.len(),
{
    if text.len() > 0 {
        strip_comments(text.skip(1));
    }
}

/// The grammar bytes of a stretch of text that ends behind the grammar byte
/// at `at` and holds only comments before it.
proof fn strip_up_to_token(text: Seq<u8>, from: int, at: int)
    requires
        0 <= from <= at < text.len(),
        at == first_token(text, from),
    ensures
        strip(text.subrange(from, at + 1)) == seq![text[at]],
        strip(text.subrange(from, at)) == Seq::<u8>::empty(),
{
    first_token_bounds(text, from);
    let comments = text.subrange(from, at);
    let token = text.subrange(at, at + 1);
    strip_comments(comments);
    assert(text.subrange(from, at + 1) =~= comments + token);
    strip_concat(comments, token);
    assert(token[0] == text[at]);
    assert(strip(token.skip(1)) =~= Seq::<u8>::empty());
    assert(strip(token) =~= seq![text[at]]);
    assert(Seq::<u8>::empty() + seq![text[at]] =~= seq![text[at]]);
}

/// A stretch of text read in two parts has the grammar bytes of both.
proof fn strip_split(text: Seq<u8>, from: int, mid: int, to: int)
    requires
        0 <= from <= mid <= to <= text.len(),
    ensures
        strip(text.subrange(from, to)) == strip(text.subrange(from, mid)) + strip(
            text.subrange(mid, to),
        ),
{
    assert(text.subrange(from, to) =~= text.subrange(from, mid) + text.subrange(mid, to));
    strip_concat(text.subrange(from, mid), text.subrange(mid, to));
}

/// An element that was recognised spells the grammar bytes it was read from,
/// and its loops have bodies.
pub proof fn element_spells_text(text: Seq<u8>, from: int)
    requires
        0 <= from <= text.len(),
    ensures
        match element_at(text, from) {
            Parse::Done { value, next } => {
                &&& strip(text.subrange(from, next)) == render_element(value)
                &&& element_has_bodies(value)
            },
            _ => true,
        },
    decreases text.len() - from, 1int,
{
    first_token_bounds(text, from);
    element_bounds(text, from);
    let at = first_token(text, from);
    if at < text.len() {
        strip_up_to_token(text, from, at);
        match operation_of(text[at]) {
            Some(op) => {},
            None => {
                loop_spells_text(text, at);
                loop_bounds(text, at);
                match loop_at(text, at) {
                    Parse::Done { value, next } => {
                        strip_split(text, from, at, next);
                        assert(Seq::<u8>::empty() + render_element(Element::Loop(value))
                            =~= render_element(Element::Loop(value)));
                    },
                    _ => {},
                }
            },
        }
    }
}

/// A loop that was recognised spells `[`, its body, `]`.
pub proof fn loop_spells_text(text: Seq<u8>, from: int)
    requires
        0 <= from <= text.len(),
    ensures
        match loop_at(text, from) {
            Parse::Done { value, next } => {
                &&& strip(text.subrange(from, next)) == render_element(Element::Loop(value))
                &&& element_has_bodies(Element::Loop(value))
            },
            _ => true,
        },
    decreases text.len() - from, 0int,
{
    if from < text.len() && text[from] == OPEN {
        branch_spells_text(text, from + 1);
        branch_bounds(text, from + 1);
        match branch_at(text, from + 1) {
            Parse::Done { value, next } => {
                first_token_bounds(text, next);
                let close = first_token(text, next);
                if close < text.len() && text[close] == CLOSE {
                    strip_up_to_token(text, from, from);
                    strip_up_to_token(text, next, close);
                    strip_split(text, from, from + 1, close + 1);
                    strip_split(text, from + 1, next, close + 1);
                    assert(seq![OPEN] + (render(value) + seq![CLOSE]) =~= seq![OPEN] + render(
                        value,
                    ) + seq![CLOSE]);
                }
            },
            _ => {},
        }
    }
}

/// One or more elements that were recognised spell the text they were read
/// from.
pub proof fn branch_spells_text(text: Seq<u8>, from: int)
    requires
        0 <= from <= text.len(),
    ensures
        match branch_at(text, from) {
            Parse::Done { value, next } => {
                &&& strip(text.subrange(from, next)) == render(value)
                &&& loops_have_bodies(value)
            },
            _ => true,
        },
    decreases text.len() - from, 3int,
{
    elements_spell_text(text, from);
}

/// The elements that were recognised spell the text they were read from.
pub proof fn elements_spell_text(text: Seq<u8>, from: int)
    requires
        0 <= from <= text.len(),
    ensures
        match elements_at(text, from) {
            Parse::Done { value, next } => {
                &&& strip(text.subrange(from, next)) == render(value)
                &&& loops_have_bodies(value)
            },
            _ => true,
        },
    decreases text.len() - from, 2int,
{
    element_spells_text(text, from);
    element_bounds(text, from);
    match element_at(text, from) {
        Parse::Done { value, next } => {
            elements_spell_text(text, next);
            elements_bounds(text, next);
            match elements_at(text, next) {
                Parse::Done { value: rest, next: end } => {
                    let all = seq![value] + rest;
                    strip_split(text, from, next, end);
                    assert(all[0] == value);
                    assert(all.skip(1) =~= rest);
                    assert forall|i: int| 0 <= i < all.len() implies element_has_bodies(
                        #[trigger] all[i],
                    ) by {
                        if i > 0 {
                            assert(all[i] == rest[i - 1]);
                        }
                    }
                },
                _ => {},
            }
        },
        Parse::Stop { at } => {
            assert(text.subrange(from, from) =~= Seq::<u8>::empty());
        },
        _ => {},
    }
}

/// Open brackets add up over two texts joined.
pub proof fn depth_concat(a: Seq<u8>, b: Seq<u8>)
    ensures
        depth(a + b) == depth(a) + depth(b),
    decreases b.len(),
{
    if b.len() == 0 {
        assert(a + b =~= a);
    } else {
        assert((a + b).drop_last() =~= a + b.drop_last());
        depth_concat(a, b.drop_last());
    }
}

/// The open brackets of a text of one byte.
proof fn depth_of_one(byte: u8)
    ensures
        depth(seq![byte]) == if byte == OPEN {
            1int
        } else if byte == CLOSE {
            -1int
        } else {
            0int
        },
{
    assert(seq![byte].drop_last() =~= Seq::<u8>::empty());
    assert(depth(seq![byte].drop_last()) == 0);
}

/// Two balanced texts joined are balanced.
pub proof fn balanced_concat(a: Seq<u8>, b: Seq<u8>)
    requires
        balanced(a),
        balanced(b),
    ensures
        balanced(a + b),
{
    depth_concat(a, b);
    let all = a + b;
    assert forall|k: int| 0 <= k <= all.len() implies depth(#[trigger] all.take(k)) >= 0 by {
        if k <= a.len() {
            assert(all.take(k) =~= a.take(k));
        } else {
            assert(all.take(k) =~= a + b.take(k - a.len()));
            depth_concat(a, b.take(k - a.len()));
        }
    }
}

/// A balanced text between `[` and `]` is balanced.
pub proof fn balanced_loop(body: Seq<u8>)
    requires
        balanced(body),
    ensures
        balanced(seq![OPEN] + body + seq![CLOSE]),
{
    let all = seq![OPEN] + body + seq![CLOSE];
    depth_of_one(OPEN);
    depth_of_one(CLOSE);
    depth_concat(seq![OPEN], body);
    depth_concat(seq![OPEN] + body, seq![CLOSE]);
    assert forall|k: int| 0 <= k <= all.len() implies depth(#[trigger] all.take(k)) >= 0 by {
        if k == 0 {
            assert(all.take(k) =~= Seq::<u8>::empty());
        } else if k <= body.len() + 1 {
            assert(all.take(k) =~= seq![OPEN] + body.take(k - 1));
            depth_concat(seq![OPEN], body.take(k - 1));
        } else {
            assert(all.take(k) =~= all);
        }
    }
}

/// An element written out is balanced.
pub proof fn rendered_element_is_balanced(element: Element)
    ensures
        balanced(render_element(element)),
    decreases element,
{
    match element {
        Element::Operation(op) => {
            let one = seq![byte_of(op)];
            depth_of_one(byte_of(op));
            assert forall|k: int| 0 <= k <= one.len() implies depth(#[trigger] one.take(k))
                >= 0 by {
                if k == 0 {
                    assert(one.take(k) =~= Seq::<u8>::empty());
                } else {
                    assert(one.take(k) =~= one);
                }
            }
        },
        Element::Loop(body) => {
            rendered_block_is_balanced(body);
            balanced_loop(render(body));
        },
    }
}

/// A list of elements written out is balanced.
pub proof fn rendered_block_is_balanced(block: Seq<Element>)
    ensures
        balanced(render(block)),
    decreases block,
{
    if block.len() == 0 {
        assert(Seq::<u8>::empty().take(0) =~= Seq::<u8>::empty());
        assert forall|k: int| 0 <= k <= 0 implies depth(#[trigger] Seq::<u8>::empty().take(k))
            >= 0 by {
            assert(Seq::<u8>::empty().take(k) =~= Seq::<u8>::empty());
        }
    } else {
        rendered_element_is_balanced(block[0]);
        rendered_block_is_balanced(block.skip(1));
        balanced_concat(render_element(block[0]), render(block.skip(1)));
    }
}

/// Balanced delimiters. Where a program is parsed, the text that was read
/// holds the grammar bytes that spell the tree: in it every `[` has its `]`
/// and every `]` its `[`, and no loop is empty. Where the rest of the text
/// holds comments only, this is so of the whole text.
pub proof fn parsed_text_is_balanced(text: Seq<u8>)
    ensures
        match elements_at(text, 0) {
            Parse::Done { value, next } => {
                &&& 0 <= next <= text.len()
                &&& strip(text.take(next)) == render(value)
                &&& balanced(strip(text.take(next)))
                &&& loops_have_bodies(value)
                &&& first_token(text, next) == text.len() ==> balanced(strip(text))
            },
            _ => true,
        },
{
    elements_bounds(text, 0);
    elements_spell_text(text, 0);
    match elements_at(text, 0) {
        Parse::Done { value, next } => {
            rendered_block_is_balanced(value);
            assert(text.take(next) =~= text.subrange(0, next));
            if first_token(text, next) == text.len() {
                first_token_bounds(text, next);
                strip_comments(text.skip(next));
                assert(text =~= text.take(next) + text.skip(next));
                strip_concat(text.take(next), text.skip(next));
                assert(strip(text.take(next)) + Seq::<u8>::empty() =~= strip(text.take(next)));
            }
        },
        _ => {},
    }
}

/// The empty program. A text without grammar bytes, the empty text among
/// them, is the program of no elements, and all of it is handed back.
pub proof fn comments_are_the_empty_program(text: Seq<u8>)
    requires
        forall|k: int| 0 <= k < text.len() ==> !is_grammar_byte(#[trigger] text[k]),
    ensures
        elements_at(text, 0) == (Parse::Done { value: Seq::<Element>::empty(), next: 0 }),
{
    first_token_bounds(text, 0);
    let at = first_token(text, 0);
    if at < text.len() {
        assert(is_grammar_byte(text[at]));
    }
    assert(element_at(text, 0) == Parse::<Element>::Stop { at });
}

/// An element that is written out at `from` is read back from there.
pub proof fn written_element_is_read_back(text: Seq<u8>, from: int, element: Element)
    requires
        0 <= from,
        from + render_element(element).len() <= text.len(),
        text.subrange(from, from + render_element(element).len()) == render_element(element),
        element_has_bodies(element),
    ensures
        element_at(text, from) == (Parse::Done {
            value: element,
            next: from + render_element(element).len(),
        }),
    decreases element, 1int,
{
    let written = render_element(element);
    let end = from + written.len();
    assert(forall|i: int| 0 <= i < written.len() ==> text[from + i] == written[i]) by {
        assert forall|i: int| 0 <= i < written.len() implies text[from + i] == written[i] by {
            assert(text.subrange(from, end)[i] == text[from + i]);
        }
    }
    match element {
        Element::Operation(op) => {
            assert(text[from] == written[0]);
        },
        Element::Loop(body) => {
            let inner = render(body);
            assert(written.len() == inner.len() + 2);
            assert(text[from] == written[0]);
            assert(text[end - 1] == written[written.len() - 1]);
            assert(text[from] == OPEN);
            assert(text[end - 1] == CLOSE);
            assert(text.subrange(from + 1, end - 1) =~= inner) by {
                assert forall|i: int| 0 <= i < inner.len() implies text[from + 1 + i]
                    == inner[i] by {
                    assert(text[from + (1 + i)] == written[1 + i]);
                }
            }
            assert(first_token(text, end - 1) == end - 1);
            written_elements_are_read_back(text, from + 1, body);
        },
    }
}

/// Elements that are written out at `from`, with the end of the text or a
/// `]` as the next grammar byte behind them, are read back from there.
pub proof fn written_elements_are_read_back(text: Seq<u8>, from: int, block: Seq<Element>)
    requires
        0 <= from,
        from + render(block).len() <= text.len(),
        text.subrange(from, from + render(block).len()) == render(block),
        loops_have_bodies(block),
        ({
            let behind = first_token(text, from + render(block).len());
            behind == text.len() || text[behind] == CLOSE
        }),
    ensures
        elements_at(text, from) == (Parse::Done { value: block, next: from + render(block).len() }),
    decreases block, 0int,
{
    let written = render(block);
    let end = from + written.len();
    if block.len() == 0 {
        first_token_bounds(text, from);
        assert(element_at(text, from) is Stop);
        assert(block =~= Seq::<Element>::empty());
    } else {
        let first = render_element(block[0]);
        let rest = render(block.skip(1));
        let middle = from + first.len();
        assert(text.subrange(from, middle) =~= first) by {
            assert forall|i: int| 0 <= i < first.len() implies text[from + i] == first[i] by {
                assert(text.subrange(from, end)[i] == written[i]);
            }
        }
        assert(text.subrange(middle, end) =~= rest) by {
            assert forall|i: int| 0 <= i < rest.len() implies text[middle + i] == rest[i] by {
                assert(text.subrange(from, end)[first.len() + i] == written[first.len() + i]);
            }
        }
        assert(loops_have_bodies(block.skip(1))) by {
            assert forall|i: int| 0 <= i < block.skip(1).len() implies element_has_bodies(
                #[trigger] block.skip(1)[i],
            ) by {
                assert(block.skip(1)[i] == block[i + 1]);
            }
        }
        written_element_is_read_back(text, from, block[0]);
        written_elements_are_read_back(text, middle, block.skip(1));
        element_bounds(text, from);
        assert(seq![block[0]] + block.skip(1) =~= block);
    }
}

/// Every program is parsed. The text that a tree whose loops have bodies is
/// written out to is read back as that tree, all of it; and so is every text
/// that holds the same grammar bytes.
pub proof fn written_programs_are_read_back(block: Seq<Element>, text: Seq<u8>)
    requires
        loops_have_bodies(block),
        strip(text) == render(block),
    ensures
        elements_at(render(block), 0) == (Parse::Done {
            value: block,
            next: render(block).len() as int,
        }),
        elements_at(text, 0) matches Parse::Done { value, next } && value == block
            && first_token(text, next) == text.len(),
{
    let written = render(block);
    assert(written.subrange(0, written.len() as int) =~= written);
    written_elements_are_read_back(written, 0, block);
    rendered_text_is_its_own_strip(block);
    comments_do_not_count(written, text);
    match elements_at(text, 0) {
        Parse::Done { value, next } => {
            elements_bounds(text, 0);
            let nothing = written.skip(written.len() as int);
            assert(nothing =~= Seq::<u8>::empty());
            strip_from_token(text, next);
            first_token_bounds(text, next);
            let behind = first_token(text, next);
            assert(strip(text.skip(next)).len() == 0);
            if behind < text.len() {
                let more = seq![text[behind]] + strip(text.skip(behind + 1));
                assert(strip(text.skip(next)) == more);
                assert(more.len() > 0);
            }
        },
        _ => {},
    }
}

/// A text that holds grammar bytes only is its own strip.
proof fn grammar_text_is_its_own_strip(text: Seq<u8>)
    requires
        forall|k: int| 0 <= k < text.len() ==> is_grammar_byte(#[trigger] text[k]),
    ensures
        strip(text) == text,
    decreases text.len(),
{
    if text.len() > 0 {
        grammar_text_is_its_own_strip(text.skip(1));
        assert(seq![text[0]] + text.skip(1) =~= text);
    }
}

/// What a tree is written out to holds grammar bytes only.
proof fn rendered_element_is_grammar(element: Element)
    ensures
        forall|k: int|
            0 <= k < render_element(element).len() ==> is_grammar_byte(
                #[trigger] render_element(element)[k],
            ),
    decreases element,
{
    let written = render_element(element);
    match element {
        Element::Operation(op) => {
            assert forall|k: int| 0 <= k < written.len() implies is_grammar_byte(
                #[trigger] written[k],
            ) by {
                assert(written[k] == byte_of(op));
            }
        },
        Element::Loop(body) => {
            let inner = render(body);
            rendered_block_is_grammar(body);
            assert forall|k: int| 0 <= k < written.len() implies is_grammar_byte(
                #[trigger] written[k],
            ) by {
                if 1 <= k <= inner.len() {
                    assert(written[k] == inner[k - 1]);
                }
            }
        },
    }
}

/// What a list of elements is written out to holds grammar bytes only.
proof fn rendered_block_is_grammar(block: Seq<Element>)
    ensures
        forall|k: int|
            0 <= k < render(block).len() ==> is_grammar_byte(#[trigger] render(block)[k]),
    decreases block,
{
    if block.len() > 0 {
        let written = render(block);
        let first = render_element(block[0]);
        let rest = render(block.skip(1));
        rendered_element_is_grammar(block[0]);
        rendered_block_is_grammar(block.skip(1));
        assert forall|k: int| 0 <= k < written.len() implies is_grammar_byte(
            #[trigger] written[k],
        ) by {
            if k < first.len() {
                assert(written[k] == first[k]);
            } else {
                assert(written[k] == rest[k - first.len()]);
            }
        }
    }
}

/// What a list of elements is written out to is its own strip.
proof fn rendered_text_is_its_own_strip(block: Seq<Element>)
    ensures
        strip(render(block)) == render(block),
{
    rendered_block_is_grammar(block);
    grammar_text_is_its_own_strip(render(block));
}

/// Two parses found the same: the same value, with texts behind it that hold
/// the same grammar bytes; or nothing, for the same reason.
pub open spec fn same_parse<T>(
    first: Parse<T>,
    first_text: Seq<u8>,
    second: Parse<T>,
    second_text: Seq<u8>,
) -> bool {
    match first {
        Parse::Done { value, next } => {
            &&& second matches Parse::Done { value: other, next: other_next }
            &&& other == value
            &&& strip(first_text.skip(next)) == strip(second_text.skip(other_next))
        },
        Parse::Stop { at } => second is Stop,
        Parse::EmptyLoop { at } => second is EmptyLoop,
        Parse::Unmatched { at } => second is Unmatched,
    }
}

/// The grammar bytes from `from` on: the first token, if there is one, then
/// those behind it.
proof fn strip_from_token(text: Seq<u8>, from: int)
    requires
        0 <= from <= text.len(),
    ensures
        strip(text.skip(from)) == if first_token(text, from) < text.len() {
            seq![text[first_token(text, from)]] + strip(text.skip(first_token(text, from) + 1))
        } else {
            Seq::<u8>::empty()
        },
{
    first_token_bounds(text, from);
    let at = first_token(text, from);
    let end = text.len() as int;
    assert(text.skip(from) =~= text.subrange(from, end));
    if at < text.len() {
        strip_up_to_token(text, from, at);
        strip_split(text, from, at + 1, end);
        assert(text.skip(at + 1) =~= text.subrange(at + 1, end));
    } else {
        strip_comments(text.skip(from));
    }
}

/// Two texts that hold the same grammar bytes from `i` and from `j` on have
/// the same first token there, or none, and the same grammar bytes behind it.
proof fn same_first_token(a: Seq<u8>, i: int, b: Seq<u8>, j: int)
    requires
        0 <= i <= a.len(),
        0 <= j <= b.len(),
        strip(a.skip(i)) == strip(b.skip(j)),
    ensures
        first_token(a, i) < a.len() <==> first_token(b, j) < b.len(),
        first_token(a, i) < a.len() ==> a[first_token(a, i)] == b[first_token(b, j)] && strip(
            a.skip(first_token(a, i) + 1),
        ) == strip(b.skip(first_token(b, j) + 1)),
{
    strip_from_token(a, i);
    strip_from_token(b, j);
    first_token_bounds(a, i);
    first_token_bounds(b, j);
    let at = first_token(a, i);
    let bt = first_token(b, j);
    if at < a.len() {
        let rest = strip(a.skip(at + 1));
        let all = seq![a[at]] + rest;
        assert(all.len() > 0);
        assert(bt < b.len());
        let other = strip(b.skip(bt + 1));
        assert(all == seq![b[bt]] + other);
        assert(all[0] == a[at]);
        assert(all[0] == b[bt]);
        assert(rest =~= all.skip(1));
        assert(other =~= all.skip(1));
    } else if bt < b.len() {
        assert((seq![b[bt]] + strip(b.skip(bt + 1))).len() > 0);
    }
}

/// Texts with the same grammar bytes hold the same element.
pub proof fn element_ignores_comments(a: Seq<u8>, i: int, b: Seq<u8>, j: int)
    requires
        0 <= i <= a.len(),
        0 <= j <= b.len(),
        strip(a.skip(i)) == strip(b.skip(j)),
    ensures
        same_parse(element_at(a, i), a, element_at(b, j), b),
    decreases a.len() - i, 1int,
{
    same_first_token(a, i, b, j);
    first_token_bounds(a, i);
    first_token_bounds(b, j);
    let at = first_token(a, i);
    let bt = first_token(b, j);
    if at < a.len() && operation_of(a[at]) is None {
        loop_ignores_comments(a, at, b, bt);
    }
}

/// Texts with the same grammar bytes hold the same loop.
pub proof fn loop_ignores_comments(a: Seq<u8>, i: int, b: Seq<u8>, j: int)
    requires
        0 <= i < a.len(),
        0 <= j < b.len(),
        a[i] == b[j],
        strip(a.skip(i + 1)) == strip(b.skip(j + 1)),
    ensures
        same_parse(loop_at(a, i), a, loop_at(b, j), b),
    decreases a.len() - i, 0int,
{
    if a[i] == OPEN {
        branch_ignores_comments(a, i + 1, b, j + 1);
        branch_bounds(a, i + 1);
        branch_bounds(b, j + 1);
        match (branch_at(a, i + 1), branch_at(b, j + 1)) {
            (
                Parse::Done { value, next },
                Parse::Done { value: other, next: other_next },
            ) => {
                same_first_token(a, next, b, other_next);
                first_token_bounds(a, next);
                first_token_bounds(b, other_next);
            },
            _ => {},
        }
    }
}

/// Texts with the same grammar bytes hold the same elements, where one is
/// needed.
pub proof fn branch_ignores_comments(a: Seq<u8>, i: int, b: Seq<u8>, j: int)
    requires
        0 <= i <= a.len(),
        0 <= j <= b.len(),
        strip(a.skip(i)) == strip(b.skip(j)),
    ensures
        same_parse(branch_at(a, i), a, branch_at(b, j), b),
    decreases a.len() - i, 3int,
{
    elements_ignore_comments(a, i, b, j);
}

/// Texts with the same grammar bytes hold the same elements.
pub proof fn elements_ignore_comments(a: Seq<u8>, i: int, b: Seq<u8>, j: int)
    requires
        0 <= i <= a.len(),
        0 <= j <= b.len(),
        strip(a.skip(i)) == strip(b.skip(j)),
    ensures
        same_parse(elements_at(a, i), a, elements_at(b, j), b),
    decreases a.len() - i, 2int,
{
    element_ignores_comments(a, i, b, j);
    element_bounds(a, i);
    element_bounds(b, j);
    match (element_at(a, i), element_at(b, j)) {
        (Parse::Done { value, next }, Parse::Done { value: other, next: other_next }) => {
            elements_ignore_comments(a, next, b, other_next);
        },
        _ => {},
    }
}

/// Comment invariance. Two texts that differ in their comments only, that is,
/// that hold the same grammar bytes in the same order, are the same program:
/// both parse to the same tree, or both fail for the same reason.
pub proof fn comments_do_not_count(first: Seq<u8>, second: Seq<u8>)
    requires
        strip(first) == strip(second),
    ensures
        same_parse(elements_at(first, 0), first, elements_at(second, 0), second),
{
    assert(first.skip(0) =~= first);
    assert(second.skip(0) =~= second);
    elements_ignore_comments(first, 0, second, 0);
}

/// Determinism. Whatever two runs of the parser hand back for one text, it is
/// the same: trees of the same value and the same rest of the text, or the
/// same error.
pub proof fn parse_is_deterministic(
    text: Seq<u8>,
    first: Result<(&str, ASTBranch), ParseError>,
    second: Result<(&str, ASTBranch), ParseError>,
)
    requires
        agrees_on_text(first, text, elements_at(text, 0)),
        agrees_on_text(second, text, elements_at(text, 0)),
    ensures
        match first {
            Ok(found) => second matches Ok(other) && other.1@ == found.1@
                && other.0.spec_bytes() == found.0.spec_bytes(),
            Err(error) => second == Err::<(&str, ASTBranch), ParseError>(error),
        },
{
}

} // verus!
