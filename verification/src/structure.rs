//! Structurally sane IF_DATA content (identifiers, strings, numbers,
//! `/include` directives, and
//! blocks `/begin TAG ... /end TAG` that nest properly), and the proof that
//! the generic reader reads all such content: an IF_DATA block that is
//! structurally sane is always read, whatever the A2ML specifications are.
use vstd::prelude::*;

use crate::ifdata_spec::{
    ifdata_step, try_spec_step, unknown_loop, unknown_start_step, unknown_step,
    unknown_taggedstruct_step, unknown_ts_loop,
};
use crate::a2ml::{IfDataV, TaggedItemV};
use crate::number::{float_text_ok, int_in_range};
use crate::parser::{ContextV, Cursor, Input, Step};
use crate::tokens::{A2lToken, A2lTokenType};

verus! {

/// A number token that the generic reader accepts: an integer that fits in
/// 32 bits, or a floating point literal.
pub open spec fn number_ok(text: Seq<char>) -> bool {
    int_in_range(text, i32::MIN as int, i32::MAX as int) is Some || float_text_ok(text)
}

/// A token that the generic reader reads by itself: a value (identifier,
/// string, acceptable number) or an `/include` directive, which it steps over.
pub open spec fn is_plain_token(t: A2lToken) -> bool {
    ||| t.ttype == A2lTokenType::Include
    ||| t.ttype == A2lTokenType::Identifier
    ||| t.ttype == A2lTokenType::String
    ||| (t.ttype == A2lTokenType::Number && number_ok(t.text@))
}

/// The end of the sane content that starts at `i`: a run of value tokens and
/// well-formed blocks.
pub open spec fn skip_content(toks: Seq<A2lToken>, i: int) -> int
    decreases toks.len() - i, 1int,
{
    if i < 0 || i >= toks.len() {
        i
    } else if is_plain_token(toks[i]) {
        skip_content(toks, i + 1)
    } else if toks[i].ttype == A2lTokenType::Begin {
        match skip_block(toks, i) {
            Some(k) => if i < k <= toks.len() {
                skip_content(toks, k)
            } else {
                i
            },
            None => i,
        }
    } else {
        i
    }
}

/// The end of the well-formed block that starts at `i`, if there is one:
/// `/begin TAG`, sane content, `/end TAG`.
pub open spec fn skip_block(toks: Seq<A2lToken>, i: int) -> Option<int>
    decreases toks.len() - i, 0int,
{
    if 0 <= i && i + 1 < toks.len() && toks[i].ttype == A2lTokenType::Begin && toks[i
        + 1].ttype == A2lTokenType::Identifier {
        let k = skip_content(toks, i + 2);
        if 0 <= k && k + 1 < toks.len() && toks[k].ttype == A2lTokenType::End && toks[k
            + 1].ttype == A2lTokenType::Identifier && toks[k + 1].text@ == toks[i + 1].text@ {
            Some(k + 2)
        } else {
            None
        }
    } else {
        None
    }
}

/// The content that starts at `i` is sane up to an `/end`.
pub open spec fn sane_up_to_end(toks: Seq<A2lToken>, i: int) -> bool {
    let s = skip_content(toks, i);
    0 <= s < toks.len() && toks[s].ttype == A2lTokenType::End
}

/// The end of the run of value tokens that starts at `i`.
pub open spec fn value_run(toks: Seq<A2lToken>, i: int) -> int
    decreases toks.len() - i,
{
    if 0 <= i < toks.len() && is_plain_token(toks[i]) {
        value_run(toks, i + 1)
    } else {
        i
    }
}

proof fn lemma_skip_content_ge(toks: Seq<A2lToken>, i: int)
    requires
        0 <= i,
    ensures
        skip_content(toks, i) >= i,
    decreases toks.len() - i,
{
    if 0 <= i < toks.len() {
        if is_plain_token(toks[i]) {
            lemma_skip_content_ge(toks, i + 1);
        } else if toks[i].ttype == A2lTokenType::Begin {
            match skip_block(toks, i) {
                Some(k) => if i < k <= toks.len() {
                    lemma_skip_content_ge(toks, k);
                },
                None => {},
            }
        }
    }
}

proof fn lemma_value_run_ge(toks: Seq<A2lToken>, i: int)
    requires
        0 <= i,
    ensures
        value_run(toks, i) >= i,
    decreases toks.len() - i,
{
    if 0 <= i < toks.len() && is_plain_token(toks[i]) {
        lemma_value_run_ge(toks, i + 1);
    }
}

/// From a point of sane content, the run of value tokens ends at a block or
/// at the `/end`, and stays on the same sane content.
proof fn lemma_value_run_on_chain(toks: Seq<A2lToken>, q: int)
    requires
        0 <= q,
        sane_up_to_end(toks, q),
    ensures
        ({
            let m = value_run(toks, q);
            &&& q <= m <= skip_content(toks, q)
            &&& skip_content(toks, m) == skip_content(toks, q)
            &&& (toks[m].ttype == A2lTokenType::Begin || toks[m].ttype == A2lTokenType::End)
        }),
    decreases toks.len() - q,
{
    lemma_skip_content_ge(toks, q);
    if is_plain_token(toks[q]) {
        lemma_value_run_on_chain(toks, q + 1);
    }
}

/// The generic reader, outside a block, reads a run of value tokens up to
/// the `/begin` or `/end` that follows it.
proof fn lemma_unknown_values(inp: Input, ctx: ContextV, c: Cursor, acc: Seq<IfDataV>)
    requires
        0 <= c.pos <= inp.toks.len(),
        value_run(inp.toks, c.pos) < inp.toks.len(),
        inp.toks[value_run(inp.toks, c.pos)].ttype == A2lTokenType::Begin || inp.toks[value_run(
            inp.toks,
            c.pos,
        )].ttype == A2lTokenType::End,
    ensures
        unknown_loop(inp, ctx, false, c, acc) matches Step::Done(_, c2) && c2.pos == value_run(
            inp.toks,
            c.pos,
        ),
    decreases inp.toks.len() - c.pos,
{
    let t = inp.toks[c.pos];
    let c1 = Cursor { pos: c.pos + 1, last_line: t.line, ..c };
    if is_plain_token(t) {
        let off = inp.line_offset(c);
        if t.ttype == A2lTokenType::Include {
            lemma_unknown_values(inp, ctx, c1, acc);
        } else if t.ttype == A2lTokenType::Identifier {
            lemma_unknown_values(inp, ctx, c1, acc.push(IfDataV::EnumItem(off, t.text@)));
        } else if t.ttype == A2lTokenType::String {
            lemma_unknown_values(inp, ctx, c1, acc.push(IfDataV::String(off, t.text@)));
        } else {
            match int_in_range(t.text@, i32::MIN as int, i32::MAX as int) {
                Some(v) => {
                    lemma_unknown_values(inp, ctx, c1, acc.push(IfDataV::Long(off, v as i32)));
                },
                None => {
                    lemma_unknown_values(inp, ctx, c1, acc.push(IfDataV::Float(off, t.text@)));
                },
            }
        }
    }
}

/// Inside a block, the generic reader reads sane content up to its `/end`.
proof fn lemma_unknown_sane(inp: Input, ctx: ContextV, c: Cursor, acc: Seq<IfDataV>)
    requires
        0 <= c.pos <= inp.toks.len(),
        sane_up_to_end(inp.toks, c.pos),
    ensures
        unknown_loop(inp, ctx, true, c, acc) matches Step::Done(_, c2) && c2.pos == skip_content(
            inp.toks,
            c.pos,
        ),
    decreases inp.toks.len() - c.pos, 1int,
{
    let toks = inp.toks;
    let p = c.pos;
    lemma_skip_content_ge(toks, p);
    let t = toks[p];
    let c1 = Cursor { pos: c.pos + 1, last_line: t.line, ..c };
    let off = inp.line_offset(c);
    if is_plain_token(t) {
        if t.ttype == A2lTokenType::Include {
            lemma_unknown_sane(inp, ctx, c1, acc);
        } else if t.ttype == A2lTokenType::Identifier {
            lemma_unknown_sane(inp, ctx, c1, acc.push(IfDataV::EnumItem(off, t.text@)));
        } else if t.ttype == A2lTokenType::String {
            lemma_unknown_sane(inp, ctx, c1, acc.push(IfDataV::String(off, t.text@)));
        } else {
            match int_in_range(t.text@, i32::MIN as int, i32::MAX as int) {
                Some(v) => {
                    lemma_unknown_sane(inp, ctx, c1, acc.push(IfDataV::Long(off, v as i32)));
                },
                None => {
                    lemma_unknown_sane(inp, ctx, c1, acc.push(IfDataV::Float(off, t.text@)));
                },
            }
        }
    } else if t.ttype == A2lTokenType::Begin {
        lemma_unknown_ts_sane(inp, ctx, c, Seq::empty());
        match unknown_ts_loop(inp, ctx, c, Seq::empty()) {
            Step::Done(items, c2) => {
                assert(unknown_taggedstruct_step(inp, ctx, c) == Step::Done(
                    IfDataV::TaggedStruct(items),
                    c2,
                ));
                lemma_unknown_sane(inp, ctx, c2, acc.push(IfDataV::TaggedStruct(items)));
            },
            _ => {},
        }
    }
}

/// Read generically, a tagged struct that starts at a point of sane content
/// ends at a later point of the same content that is no `/begin`; where it
/// starts at a `/begin`, it reads at least that block.
proof fn lemma_unknown_ts_sane(inp: Input, ctx: ContextV, c: Cursor, acc: Seq<TaggedItemV>)
    requires
        0 <= c.pos <= inp.toks.len(),
        sane_up_to_end(inp.toks, c.pos),
    ensures
        unknown_ts_loop(inp, ctx, c, acc) matches Step::Done(_, c2) && {
            &&& c.pos <= c2.pos <= skip_content(inp.toks, c.pos)
            &&& skip_content(inp.toks, c2.pos) == skip_content(inp.toks, c.pos)
            &&& inp.toks[c2.pos].ttype != A2lTokenType::Begin
            &&& (inp.toks[c.pos].ttype == A2lTokenType::Begin ==> c.pos < c2.pos)
        },
    decreases inp.toks.len() - c.pos, 0int,
{
    let toks = inp.toks;
    let p = c.pos;
    lemma_skip_content_ge(toks, p);
    let t = toks[p];
    if t.ttype == A2lTokenType::Begin {
        let k = skip_block(toks, p)->0;
        let k1 = skip_content(toks, p + 2);
        lemma_skip_content_ge(toks, p + 2);
        lemma_skip_content_ge(toks, k);
        let (tagres, c1) = inp.next_tag(ctx, c);
        let (tok, is_block, start_offset) = tagres->0;
        let c2 = crate::parser::bump_id(c1);
        let nctx = crate::parser::context_from_token(tok.text@, tok, true);
        lemma_unknown_sane(inp, nctx, c2, Seq::empty());
        let c3 = unknown_loop(inp, nctx, true, c2, Seq::empty())->Done_1;
        let item = TaggedItemV {
            incfile: inp.incfile(nctx.fileid),
            line: nctx.line,
            uid: c2.next_id,
            start_offset: start_offset,
            end_offset: inp.line_offset(c3),
            tag: tok.text@,
            data: unknown_step(inp, nctx, true, c2)->Done_0,
            is_block: true,
        };
        let c4 = crate::ifdata_spec::block_end(inp, nctx, c3, tok.text@)->Done_1;
        assert(c4.pos == k);
        lemma_unknown_ts_sane(inp, ctx, c4, acc.push(item));
    } else if t.ttype == A2lTokenType::Identifier {
        let (tagres, c1) = inp.next_tag(ctx, c);
        let (tok, is_block, start_offset) = tagres->0;
        let c2 = crate::parser::bump_id(c1);
        let nctx = crate::parser::context_from_token(tok.text@, tok, true);
        lemma_value_run_on_chain(toks, p + 1);
        lemma_value_run_ge(toks, p + 1);
        lemma_unknown_values(inp, nctx, c2, Seq::empty());
        let c3 = unknown_loop(inp, nctx, false, c2, Seq::empty())->Done_1;
        let item = TaggedItemV {
            incfile: inp.incfile(nctx.fileid),
            line: nctx.line,
            uid: c2.next_id,
            start_offset: start_offset,
            end_offset: inp.line_offset(c3),
            tag: tok.text@,
            data: unknown_step(inp, nctx, false, c2)->Done_0,
            is_block: false,
        };
        lemma_unknown_ts_sane(inp, ctx, c3, acc.push(item));
    }
}

/// Read generically inside a block, content that is structurally sane up to
/// an `/end` is always read, and the reader stops at that `/end`.
pub proof fn law_unknown_reads_sane_content(inp: Input, ctx: ContextV, c: Cursor)
    requires
        0 <= c.pos <= inp.toks.len(),
        sane_up_to_end(inp.toks, c.pos),
    ensures
        unknown_step(inp, ctx, true, c) matches Step::Done(_, c2) && c2.pos == skip_content(
            inp.toks,
            c.pos,
        ),
{
    lemma_unknown_sane(inp, ctx, c, Seq::empty());
}

/// An IF_DATA block whose content is structurally sane is always read: by
/// one of the A2ML specifications, or generically. It is never refused with
/// an error.
pub proof fn law_sane_ifdata_is_read(
    inp: Input,
    builtin: Option<crate::a2ml::A2mlTypeSpec>,
    file: Option<crate::a2ml::A2mlTypeSpec>,
    ctx: ContextV,
    c: Cursor,
)
    requires
        0 <= c.pos <= inp.toks.len(),
        sane_up_to_end(inp.toks, c.pos),
    ensures
        ifdata_step(inp, builtin, file, ctx, c) !is Fail,
{
    let t = inp.toks[c.pos];
    if t.ttype != A2lTokenType::End {
        match try_spec_step(inp, builtin, ctx, c) {
            Step::Done(None, c1) => {
                match try_spec_step(inp, file, ctx, c1) {
                    Step::Done(None, c2) => {
                        lemma_unknown_start_sane(inp, ctx, c2);
                    },
                    _ => {},
                }
            },
            _ => {},
        }
    }
}

proof fn lemma_unknown_start_sane(inp: Input, ctx: ContextV, c: Cursor)
    requires
        0 <= c.pos <= inp.toks.len(),
        sane_up_to_end(inp.toks, c.pos),
    ensures
        unknown_start_step(inp, ctx, c) matches Step::Done(_, c2) && c2.pos == skip_content(
            inp.toks,
            c.pos,
        ),
{
    lemma_skip_content_ge(inp.toks, c.pos);
    let t = inp.toks[c.pos];
    if t.ttype == A2lTokenType::Identifier {
        let c1 = Cursor { pos: c.pos + 1, last_line: t.line, ..c };
        let c2 = crate::parser::bump_id(c1);
        let nctx = crate::parser::context_from_token(t.text@, t, false);
        lemma_unknown_sane(inp, nctx, c2, Seq::empty());
    } else {
        lemma_unknown_sane(inp, ctx, c, Seq::empty());
    }
}

/// Read generically, an IF_DATA block whose content is structurally sane up
/// to its `/end` is read up to that `/end`, whether or not it starts with a
/// tag.
pub proof fn law_unknown_start_reads_sane_content(inp: Input, ctx: ContextV, c: Cursor)
    requires
        0 <= c.pos <= inp.toks.len(),
        sane_up_to_end(inp.toks, c.pos),
    ensures
        unknown_start_step(inp, ctx, c) matches Step::Done(_, c2) && c2.pos == skip_content(
            inp.toks,
            c.pos,
        ),
{
    lemma_unknown_start_sane(inp, ctx, c);
}

/// Where `parse_ifdata` falls back to the generic reading of a structurally
/// sane block, it reads the block up to its `/end`.
pub proof fn law_sane_ifdata_generic_reads_to_end(
    inp: Input,
    builtin: Option<crate::a2ml::A2mlTypeSpec>,
    file: Option<crate::a2ml::A2mlTypeSpec>,
    ctx: ContextV,
    c: Cursor,
)
    requires
        0 <= c.pos <= inp.toks.len(),
        sane_up_to_end(inp.toks, c.pos),
    ensures
        ifdata_step(inp, builtin, file, ctx, c) matches Step::Done((Some(_), false), c3) ==> c3.pos
            == skip_content(inp.toks, c.pos),
{
    let t = inp.toks[c.pos];
    if t.ttype != A2lTokenType::End {
        if let Some(b) = builtin {
            crate::ifdata_spec::law_from_spec_restores_position(inp, b, ctx, c);
        }
        match try_spec_step(inp, builtin, ctx, c) {
            Step::Done(None, c1) => {
                if let Some(f) = file {
                    crate::ifdata_spec::law_from_spec_restores_position(inp, f, ctx, c1);
                }
                match try_spec_step(inp, file, ctx, c1) {
                    Step::Done(None, c2) => {
                        lemma_unknown_start_sane(inp, ctx, c2);
                    },
                    _ => {},
                }
            },
            _ => {},
        }
    }
}

/// A value item of generic data: an identifier, a string or a number.
pub open spec fn plain_value(d: IfDataV) -> bool {
    ||| d is EnumItem
    ||| d is String
    ||| d is Long
    ||| d is Float
}

pub open spec fn all_plain(s: Seq<IfDataV>) -> bool {
    forall|j: int| 0 <= j < s.len() ==> plain_value(#[trigger] s[j])
}

proof fn lemma_unknown_outside_block_plain(inp: Input, ctx: ContextV, c: Cursor, acc: Seq<IfDataV>)
    requires
        all_plain(acc),
    ensures
        unknown_loop(inp, ctx, false, c, acc) matches Step::Done(items, _) ==> all_plain(items),
    decreases inp.toks.len() - c.pos,
{
    if let Some(t) = inp.peek(c) {
        let off = inp.line_offset(c);
        let c1 = Cursor { pos: c.pos + 1, last_line: t.line, ..c };
        let x = if t.ttype == A2lTokenType::Identifier {
            IfDataV::EnumItem(off, t.text@)
        } else if t.ttype == A2lTokenType::String {
            IfDataV::String(off, t.text@)
        } else {
            match int_in_range(t.text@, i32::MIN as int, i32::MAX as int) {
                Some(v) => IfDataV::Long(off, v as i32),
                None => IfDataV::Float(off, t.text@),
            }
        };
        assert(all_plain(acc.push(x))) by {
            assert forall|j: int| 0 <= j < acc.push(x).len() implies plain_value(
                #[trigger] acc.push(x)[j],
            ) by {
                if j < acc.len() {
                    assert(acc.push(x)[j] == acc[j]);
                }
            }
        }
        if t.ttype == A2lTokenType::Include {
            lemma_unknown_outside_block_plain(inp, ctx, c1, acc);
        } else {
            lemma_unknown_outside_block_plain(inp, ctx, c1, acc.push(x));
        }
    }
}

/// The tagged items of generic data that are not blocks hold values only:
/// such an item ends at the next `/begin`, and the block that follows is the
/// next item of the enclosing tagged struct, not part of this one.
pub open spec fn plain_tagged_items(items: Seq<TaggedItemV>) -> bool {
    forall|i: int|
        0 <= i < items.len() && !(#[trigger] items[i]).is_block ==> (items[i].data matches IfDataV::Struct(
            _,
            _,
            xs,
        ) && all_plain(xs))
}

proof fn lemma_unknown_ts_plain(inp: Input, ctx: ContextV, c: Cursor, acc: Seq<TaggedItemV>)
    requires
        plain_tagged_items(acc),
    ensures
        unknown_ts_loop(inp, ctx, c, acc) matches Step::Done(items, _) ==> plain_tagged_items(items),
    decreases inp.toks.len() - c.pos,
{
    let (tagres, c1) = inp.next_tag(ctx, c);
    if let Some((tok, is_block, start_offset)) = tagres {
        let c2 = crate::parser::bump_id(c1);
        let tag = tok.text@;
        let nctx = crate::parser::context_from_token(tag, tok, true);
        if c.pos < c2.pos <= inp.toks.len() {
            if !is_block {
                lemma_unknown_outside_block_plain(inp, nctx, c2, seq![]);
            }
            match unknown_step(inp, nctx, is_block, c2) {
                Step::Done(d, c3) => {
                    let item = TaggedItemV {
                        incfile: inp.incfile(nctx.fileid),
                        line: nctx.line,
                        uid: c2.next_id,
                        start_offset: start_offset,
                        end_offset: inp.line_offset(c3),
                        tag: tag,
                        data: d,
                        is_block: is_block,
                    };
                    assert(plain_tagged_items(acc.push(item))) by {
                        assert forall|i: int|
                            0 <= i < acc.push(item).len() && !(#[trigger] acc.push(
                                item,
                            )[i]).is_block implies (acc.push(item)[i].data matches IfDataV::Struct(
                            _,
                            _,
                            xs,
                        ) && all_plain(xs)) by {
                            if i < acc.len() {
                                assert(acc.push(item)[i] == acc[i]);
                            }
                        }
                    }
                    let end = if is_block {
                        crate::ifdata_spec::block_end(inp, nctx, c3, tag)
                    } else {
                        Step::Done((), c3)
                    };
                    match end {
                        Step::Done(_, c4) => {
                            if c.pos < c4.pos <= inp.toks.len() {
                                lemma_unknown_ts_plain(inp, ctx, c4, acc.push(item));
                            }
                        },
                        _ => {},
                    }
                },
                _ => {},
            }
        }
    }
}

/// Read generically, a tagged item that is not a block holds only the value
/// tokens up to the next `/begin` or `/end`: blocks that follow it are
/// sibling items of the enclosing tagged struct.
pub proof fn law_unknown_plain_tags_hold_values(inp: Input, ctx: ContextV, c: Cursor)
    ensures
        unknown_taggedstruct_step(inp, ctx, c) matches Step::Done(IfDataV::TaggedStruct(items), _)
            ==> plain_tagged_items(items),
{
    lemma_unknown_ts_plain(inp, ctx, c, seq![]);
}

} // verus!
