//! What parsing an IF_DATA block does, as spec functions over the tokens
//! (`Input`) and the cursor (`Cursor`). Each function of `ifdata` is proved
//! to do what the spec function of the same name here says.
use vstd::prelude::*;

use crate::a2ml::{make_block_view, A2mlTaggedTypeSpec, A2mlTypeSpec, IfDataV, TaggedItemV};
use crate::number::{float_text_ok, int_in_range};
use crate::parser::{bump_id, context_from_token, with_pos, ContextV, Cursor, ErrorV, Input, Step};
use crate::tokens::A2lTokenType;

verus! {

/// The position of the first tagged item spec with the given tag, from `i` on.
pub open spec fn find_tagged_from(v: Vec<A2mlTaggedTypeSpec>, tag: Seq<char>, i: int) -> Option<
    int,
>
    decreases v.len() - i,
{
    if i < 0 || i >= v.len() {
        None
    } else if v@[i].tag@ == tag {
        Some(i)
    } else {
        find_tagged_from(v, tag, i + 1)
    }
}

pub open spec fn find_tagged(v: Vec<A2mlTaggedTypeSpec>, tag: Seq<char>) -> Option<int> {
    find_tagged_from(v, tag, 0)
}

/// Whether `name` is an enumerator of the enumeration.
pub open spec fn enum_has(v: Vec<(String, Option<i32>)>, name: Seq<char>) -> bool {
    exists|k: int| 0 <= k < v.len() && (#[trigger] v@[k]).0@ == name
}

/// A number read by an integer reader, made into data.
pub open spec fn int_data(s: Step<int>, f: spec_fn(int) -> IfDataV) -> Step<IfDataV> {
    match s {
        Step::Done(v, c) => Step::Done(f(v), c),
        Step::Fail(e, c) => Step::Fail(e, c),
        Step::Diverge => Step::Diverge,
    }
}

/// A text read by a token reader, made into data.
pub open spec fn text_data(s: Step<Seq<char>>, f: spec_fn(Seq<char>) -> IfDataV) -> Step<IfDataV> {
    match s {
        Step::Done(v, c) => Step::Done(f(v), c),
        Step::Fail(e, c) => Step::Fail(e, c),
        Step::Diverge => Step::Diverge,
    }
}

/// Data read according to an A2ML type.
pub open spec fn item_step(inp: Input, spec: A2mlTypeSpec, ctx: ContextV, c: Cursor) -> Step<
    IfDataV,
>
    decreases spec, 1int, 0int,
{
    let off = inp.line_offset(c);
    match spec {
        A2mlTypeSpec::Empty => Step::Done(IfDataV::Empty, c),
        A2mlTypeSpec::Char => int_data(
            inp.get_integer(ctx, c, i8::MIN as int, i8::MAX as int),
            |v: int| IfDataV::Char(off, v as i8),
        ),
        A2mlTypeSpec::Int => int_data(
            inp.get_integer(ctx, c, i16::MIN as int, i16::MAX as int),
            |v: int| IfDataV::Int(off, v as i16),
        ),
        A2mlTypeSpec::Long => int_data(
            inp.get_integer(ctx, c, i32::MIN as int, i32::MAX as int),
            |v: int| IfDataV::Long(off, v as i32),
        ),
        A2mlTypeSpec::Int64 => int_data(
            inp.get_integer(ctx, c, i64::MIN as int, i64::MAX as int),
            |v: int| IfDataV::Int64(off, v as i64),
        ),
        A2mlTypeSpec::UChar => int_data(
            inp.get_integer(ctx, c, 0, u8::MAX as int),
            |v: int| IfDataV::UChar(off, v as u8),
        ),
        A2mlTypeSpec::UInt => int_data(
            inp.get_integer(ctx, c, 0, u16::MAX as int),
            |v: int| IfDataV::UInt(off, v as u16),
        ),
        A2mlTypeSpec::ULong => int_data(
            inp.get_integer(ctx, c, 0, u32::MAX as int),
            |v: int| IfDataV::ULong(off, v as u32),
        ),
        A2mlTypeSpec::UInt64 => int_data(
            inp.get_integer(ctx, c, 0, u64::MAX as int),
            |v: int| IfDataV::UInt64(off, v as u64),
        ),
        A2mlTypeSpec::Float => text_data(inp.get_float(ctx, c), |s: Seq<char>| IfDataV::Float(off, s)),
        A2mlTypeSpec::Double => text_data(
            inp.get_float(ctx, c),
            |s: Seq<char>| IfDataV::Double(off, s),
        ),
        A2mlTypeSpec::Array(t, dim) => match *t {
            A2mlTypeSpec::Char => text_data(
                inp.get_string_maxlen(ctx, c, dim),
                |s: Seq<char>| IfDataV::String(off, s),
            ),
            _ => match array_step(inp, *t, dim as int, ctx, c, seq![]) {
                Step::Done(items, c2) => Step::Done(IfDataV::Array(items), c2),
                Step::Fail(e, c2) => Step::Fail(e, c2),
                Step::Diverge => Step::Diverge,
            },
        },
        A2mlTypeSpec::Enum(v) => match inp.expect_text(ctx, c, A2lTokenType::Identifier) {
            Step::Done(name, c2) => if enum_has(v, name) {
                Step::Done(IfDataV::EnumItem(off, name), c2)
            } else {
                Step::Fail(ErrorV::InvalidEnumValue(ctx, name), c2)
            },
            Step::Fail(e, c2) => Step::Fail(e, c2),
            Step::Diverge => Step::Diverge,
        },
        A2mlTypeSpec::Struct(v) => match struct_step(inp, v, 0, ctx, c, seq![]) {
            Step::Done(items, c2) => Step::Done(
                IfDataV::Struct(inp.incfile(ctx.fileid), off, items),
                c2,
            ),
            Step::Fail(e, c2) => Step::Fail(e, c2),
            Step::Diverge => Step::Diverge,
        },
        A2mlTypeSpec::Sequence(e) => match seq_step(inp, *e, ctx, c, seq![]) {
            Step::Done(items, c2) => Step::Done(IfDataV::Sequence(items), c2),
            Step::Fail(err, c2) => Step::Fail(err, c2),
            Step::Diverge => Step::Diverge,
        },
        A2mlTypeSpec::TaggedStruct(v) => match taggedstruct_step(inp, v, ctx, c, seq![]) {
            Step::Done(items, c2) => Step::Done(IfDataV::TaggedStruct(items), c2),
            Step::Fail(e, c2) => Step::Fail(e, c2),
            Step::Diverge => Step::Diverge,
        },
        A2mlTypeSpec::TaggedUnion(v) => match taggeditem_step(inp, v, ctx, c) {
            Step::Done(Some(item), c2) => Step::Done(IfDataV::TaggedUnion(seq![item]), c2),
            Step::Done(None, c2) => Step::Done(IfDataV::TaggedUnion(seq![]), c2),
            Step::Fail(e, c2) => Step::Fail(e, c2),
            Step::Diverge => Step::Diverge,
        },
    }
}

/// The remaining `n` elements of an array, after the elements `acc`.
pub open spec fn array_step(
    inp: Input,
    elem: A2mlTypeSpec,
    n: int,
    ctx: ContextV,
    c: Cursor,
    acc: Seq<IfDataV>,
) -> Step<Seq<IfDataV>>
    decreases elem, 2int, n,
{
    if n <= 0 {
        Step::Done(acc, c)
    } else {
        match item_step(inp, elem, ctx, c) {
            Step::Done(v, c2) => array_step(inp, elem, n - 1, ctx, c2, acc.push(v)),
            Step::Fail(e, c2) => Step::Fail(e, c2),
            Step::Diverge => Step::Diverge,
        }
    }
}

/// The elements `i..` of a struct, after the elements `acc`.
pub open spec fn struct_step(
    inp: Input,
    v: Vec<A2mlTypeSpec>,
    i: int,
    ctx: ContextV,
    c: Cursor,
    acc: Seq<IfDataV>,
) -> Step<Seq<IfDataV>>
    decreases v, 2int, v.len() - i,
{
    if i < 0 || i >= v.len() {
        Step::Done(acc, c)
    } else {
        match item_step(inp, v@[i], ctx, c) {
            Step::Done(x, c2) => struct_step(inp, v, i + 1, ctx, c2, acc.push(x)),
            Step::Fail(e, c2) => Step::Fail(e, c2),
            Step::Diverge => Step::Diverge,
        }
    }
}

/// The rest of a sequence, after the elements `acc`: elements are read as
/// long as they can be; the cursor goes back to the end of the last one.
/// An element that is read without reading a token would be read forever.
pub open spec fn seq_step(inp: Input, elem: A2mlTypeSpec, ctx: ContextV, c: Cursor, acc: Seq<IfDataV>) -> Step<
    Seq<IfDataV>,
>
    decreases elem, 2int, inp.toks.len() - c.pos,
{
    match item_step(inp, elem, ctx, c) {
        Step::Done(v, c2) => if c.pos < c2.pos <= inp.toks.len() {
            seq_step(inp, elem, ctx, c2, acc.push(v))
        } else {
            Step::Diverge
        },
        Step::Fail(_, c2) => Step::Done(acc, with_pos(c2, c.pos)),
        Step::Diverge => Step::Diverge,
    }
}

/// The rest of a tagged struct, after the items `acc`: tagged items are read
/// until no tagged item of the struct comes next.
pub open spec fn taggedstruct_step(
    inp: Input,
    v: Vec<A2mlTaggedTypeSpec>,
    ctx: ContextV,
    c: Cursor,
    acc: Seq<TaggedItemV>,
) -> Step<Seq<TaggedItemV>>
    decreases v, 3int, inp.toks.len() - c.pos,
{
    match taggeditem_step(inp, v, ctx, c) {
        Step::Done(Some(item), c2) => if c.pos < c2.pos <= inp.toks.len() {
            taggedstruct_step(inp, v, ctx, c2, acc.push(item))
        } else {
            Step::Diverge
        },
        Step::Done(None, c2) => Step::Done(acc, c2),
        Step::Fail(e, c2) => Step::Fail(e, c2),
        Step::Diverge => Step::Diverge,
    }
}

/// The end of a block: `/end` and the block's own tag.
pub open spec fn block_end(inp: Input, ctx: ContextV, c: Cursor, tag: Seq<char>) -> Step<()> {
    match inp.expect_token(ctx, c, A2lTokenType::End) {
        Step::Done(_, c2) => match inp.expect_text(ctx, c2, A2lTokenType::Identifier) {
            Step::Done(endtag, c3) => if endtag != tag {
                Step::Fail(ErrorV::IncorrectEndTag(ctx, endtag), c3)
            } else {
                Step::Done((), c3)
            },
            Step::Fail(e, c3) => Step::Fail(e, c3),
            Step::Diverge => Step::Diverge,
        },
        Step::Fail(e, c2) => Step::Fail(e, c2),
        Step::Diverge => Step::Diverge,
    }
}

/// One tagged item of a tagged struct or union, if one of its tags comes
/// next (as a block where the spec says block, as a plain tag where it does
/// not). Where none comes, the position is restored.
pub open spec fn taggeditem_step(inp: Input, v: Vec<A2mlTaggedTypeSpec>, ctx: ContextV, c: Cursor) -> Step<
    Option<TaggedItemV>,
>
    decreases v, 2int, 0int,
{
    let (tagres, c1) = inp.next_tag(ctx, c);
    match tagres {
        Some((tok, is_block, start_offset)) => {
            let tag = tok.text@;
            match find_tagged(v, tag) {
                Some(k) => if 0 <= k < v.len() {
                    let ts = v@[k];
                    if ts.is_block != is_block {
                        Step::Done(None, with_pos(c1, c.pos))
                    } else {
                        let c2 = bump_id(c1);
                        let uid = c2.next_id;
                        let nctx = context_from_token(tag, tok, is_block);
                        let incfile = inp.incfile(nctx.fileid);
                        match item_step(inp, ts.item, nctx, c2) {
                            Step::Done(data, c3) => {
                                let item = TaggedItemV {
                                    incfile: incfile,
                                    line: nctx.line,
                                    uid: uid,
                                    start_offset: start_offset,
                                    end_offset: inp.line_offset(c3),
                                    tag: tag,
                                    data: make_block_view(data, incfile, nctx.line),
                                    is_block: is_block,
                                };
                                if is_block {
                                    match block_end(inp, nctx, c3, tag) {
                                        Step::Done(_, c4) => Step::Done(Some(item), c4),
                                        Step::Fail(e, c4) => Step::Fail(e, c4),
                                        Step::Diverge => Step::Diverge,
                                    }
                                } else {
                                    Step::Done(Some(item), c3)
                                }
                            },
                            Step::Fail(e, c3) => Step::Fail(e, c3),
                            Step::Diverge => Step::Diverge,
                        }
                    }
                } else {
                    Step::Done(None, with_pos(c1, c.pos))
                },
                None => Step::Done(None, with_pos(c1, c.pos)),
            }
        },
        None => Step::Done(None, with_pos(c1, c.pos)),
    }
}

/// The items of an IF_DATA block read according to an A2ML type, made into
/// a block, if that reads it up to its `/end`. Otherwise the position is
/// restored.
pub open spec fn from_spec_step(inp: Input, spec: A2mlTypeSpec, ctx: ContextV, c: Cursor) -> Step<
    Option<IfDataV>,
> {
    match item_step(inp, spec, ctx, c) {
        Step::Done(d, c2) => match inp.peek(c2) {
            Some(t) => if t.ttype == A2lTokenType::End {
                Step::Done(Some(make_block_view(d, inp.incfile(ctx.fileid), ctx.line)), c2)
            } else {
                Step::Done(None, with_pos(c2, c.pos))
            },
            None => Step::Done(None, with_pos(c2, c.pos)),
        },
        Step::Fail(_, c2) => Step::Done(None, with_pos(c2, c.pos)),
        Step::Diverge => Step::Diverge,
    }
}

/// Tries the spec, if there is one.
pub open spec fn try_spec_step(inp: Input, spec: Option<A2mlTypeSpec>, ctx: ContextV, c: Cursor) -> Step<
    Option<IfDataV>,
> {
    match spec {
        Some(s) => from_spec_step(inp, s, ctx, c),
        None => Step::Done(None, c),
    }
}

/// An IF_DATA block: nothing if it is empty; else read according to the
/// built-in spec, else according to the spec of the file, else read
/// generically. The flag says whether a spec read it.
pub open spec fn ifdata_step(
    inp: Input,
    builtin: Option<A2mlTypeSpec>,
    file: Option<A2mlTypeSpec>,
    ctx: ContextV,
    c: Cursor,
) -> Step<(Option<IfDataV>, bool)> {
    match inp.peek(c) {
        Some(t) => if t.ttype != A2lTokenType::End {
            match try_spec_step(inp, builtin, ctx, c) {
                Step::Done(Some(d), c1) => Step::Done((Some(d), true), c1),
                Step::Done(None, c1) => match try_spec_step(inp, file, ctx, c1) {
                    Step::Done(Some(d), c2) => Step::Done((Some(d), true), c2),
                    Step::Done(None, c2) => match unknown_start_step(inp, ctx, c2) {
                        Step::Done(d, c3) => Step::Done((Some(d), false), c3),
                        Step::Fail(e, c3) => Step::Fail(e, c3),
                        Step::Diverge => Step::Diverge,
                    },
                    Step::Fail(e, c2) => Step::Fail(e, c2),
                    Step::Diverge => Step::Diverge,
                },
                Step::Fail(e, c1) => Step::Fail(e, c1),
                Step::Diverge => Step::Diverge,
            }
        } else {
            Step::Done((None, false), c)
        },
        None => Step::Done((None, false), c),
    }
}

/// An IF_DATA block read generically. By convention its content is a tagged
/// union: where it starts with an identifier, that is taken as the tag.
pub open spec fn unknown_start_step(inp: Input, ctx: ContextV, c: Cursor) -> Step<IfDataV> {
    match inp.peek(c) {
        Some(t) => if t.ttype == A2lTokenType::Identifier {
            let start_offset = inp.line_offset(c);
            let c1 = Cursor { pos: c.pos + 1, last_line: t.line, ..c };
            let tag = t.text@;
            let c2 = bump_id(c1);
            let nctx = context_from_token(tag, t, false);
            match unknown_step(inp, nctx, true, c2) {
                Step::Done(d, c3) => {
                    let item = TaggedItemV {
                        incfile: inp.incfile(nctx.fileid),
                        line: nctx.line,
                        uid: c2.next_id,
                        start_offset: start_offset,
                        end_offset: inp.line_offset(c3),
                        tag: tag,
                        data: d,
                        is_block: false,
                    };
                    Step::Done(
                        IfDataV::Block(
                            inp.incfile(ctx.fileid),
                            start_offset,
                            seq![IfDataV::TaggedUnion(seq![item])],
                        ),
                        c3,
                    )
                },
                Step::Fail(e, c3) => Step::Fail(e, c3),
                Step::Diverge => Step::Diverge,
            }
        } else {
            unknown_step(inp, ctx, true, c)
        },
        None => unknown_step(inp, ctx, true, c),
    }
}

/// Data of unknown format, read generically as a struct of its items.
pub open spec fn unknown_step(inp: Input, ctx: ContextV, is_block: bool, c: Cursor) -> Step<IfDataV>
    decreases inp.toks.len() - c.pos, 4int,
{
    match unknown_loop(inp, ctx, is_block, c, seq![]) {
        Step::Done(items, c2) => Step::Done(
            IfDataV::Struct(inp.incfile(ctx.fileid), inp.line_offset(c), items),
            c2,
        ),
        Step::Fail(e, c2) => Step::Fail(e, c2),
        Step::Diverge => Step::Diverge,
    }
}

/// The rest of the items of data of unknown format, after `acc`:
/// identifiers, strings and numbers, and inside a block, tagged structs of
/// blocks; up to `/end` (or `/begin`, outside a block). `/include`
/// directives are stepped over.
pub open spec fn unknown_loop(
    inp: Input,
    ctx: ContextV,
    is_block: bool,
    c: Cursor,
    acc: Seq<IfDataV>,
) -> Step<Seq<IfDataV>>
    decreases inp.toks.len() - c.pos, 3int,
{
    match inp.peek(c) {
        None => Step::Fail(ErrorV::UnexpectedEOF(ctx), c),
        Some(t) => {
            let off = inp.line_offset(c);
            let c1 = Cursor { pos: c.pos + 1, last_line: t.line, ..c };
            match t.ttype {
                A2lTokenType::Identifier => unknown_loop(
                    inp,
                    ctx,
                    is_block,
                    c1,
                    acc.push(IfDataV::EnumItem(off, t.text@)),
                ),
                A2lTokenType::String => unknown_loop(
                    inp,
                    ctx,
                    is_block,
                    c1,
                    acc.push(IfDataV::String(off, t.text@)),
                ),
                A2lTokenType::Number => match int_in_range(
                    t.text@,
                    i32::MIN as int,
                    i32::MAX as int,
                ) {
                    Some(v) => unknown_loop(
                        inp,
                        ctx,
                        is_block,
                        c1,
                        acc.push(IfDataV::Long(off, v as i32)),
                    ),
                    None => if float_text_ok(t.text@) {
                        unknown_loop(inp, ctx, is_block, c1, acc.push(IfDataV::Float(off, t.text@)))
                    } else {
                        Step::Fail(ErrorV::MalformedNumber(ctx, t.text@), c1)
                    },
                },
                A2lTokenType::Begin => if is_block {
                    match unknown_taggedstruct_step(inp, ctx, c) {
                        Step::Done(d, c2) => if c.pos < c2.pos <= inp.toks.len() {
                            unknown_loop(inp, ctx, is_block, c2, acc.push(d))
                        } else {
                            Step::Diverge
                        },
                        Step::Fail(e, c2) => Step::Fail(e, c2),
                        Step::Diverge => Step::Diverge,
                    }
                } else {
                    Step::Done(acc, c)
                },
                A2lTokenType::End => Step::Done(acc, c),
                A2lTokenType::Include => unknown_loop(inp, ctx, is_block, c1, acc),
            }
        },
    }
}

/// A tagged struct that holds the blocks (and the tagged items after them)
/// found in data of unknown format. A `/begin` that is left over is an error.
pub open spec fn unknown_taggedstruct_step(inp: Input, ctx: ContextV, c: Cursor) -> Step<IfDataV>
    decreases inp.toks.len() - c.pos, 2int,
{
    match unknown_ts_loop(inp, ctx, c, seq![]) {
        Step::Done(items, c2) => match inp.peek(c2) {
            Some(t) => if t.ttype == A2lTokenType::Begin {
                Step::Fail(ErrorV::InvalidBegin(ctx), c2)
            } else {
                Step::Done(IfDataV::TaggedStruct(items), c2)
            },
            None => Step::Done(IfDataV::TaggedStruct(items), c2),
        },
        Step::Fail(e, c2) => Step::Fail(e, c2),
        Step::Diverge => Step::Diverge,
    }
}

/// The rest of the tagged items of such a tagged struct, after `acc`.
pub open spec fn unknown_ts_loop(inp: Input, ctx: ContextV, c: Cursor, acc: Seq<TaggedItemV>) -> Step<
    Seq<TaggedItemV>,
>
    decreases inp.toks.len() - c.pos, 1int,
{
    let (tagres, c1) = inp.next_tag(ctx, c);
    match tagres {
        Some((tok, is_block, start_offset)) => {
            let c2 = bump_id(c1);
            let tag = tok.text@;
            let nctx = context_from_token(tag, tok, true);
            if c.pos < c2.pos <= inp.toks.len() {
                match unknown_step(inp, nctx, is_block, c2) {
                    Step::Done(d, c3) => {
                        let item = TaggedItemV {
                            incfile: inp.incfile(nctx.fileid),
                            line: nctx.line,
                            uid: c2.next_id,
                            start_offset: start_offset,
                            end_offset: inp.line_offset(c3),
                            tag: tag,
                            data: d,
                            is_block: is_block,
                        };
                        let end = if is_block {
                            block_end(inp, nctx, c3, tag)
                        } else {
                            Step::Done((), c3)
                        };
                        match end {
                            Step::Done(_, c4) => if c.pos < c4.pos <= inp.toks.len() {
                                unknown_ts_loop(inp, ctx, c4, acc.push(item))
                            } else {
                                Step::Diverge
                            },
                            Step::Fail(e, c4) => Step::Fail(e, c4),
                            Step::Diverge => Step::Diverge,
                        }
                    },
                    Step::Fail(e, c3) => Step::Fail(e, c3),
                    Step::Diverge => Step::Diverge,
                }
            } else {
                Step::Diverge
            }
        },
        None => Step::Done(acc, c1),
    }
}

/// Reading an IF_DATA block according to a specification never ends in an
/// error: where it gives no data, the cursor stands where it stood before, so
/// that the block can be read another way; where it gives data, the block's
/// `/end` comes next.
pub proof fn law_from_spec_restores_position(inp: Input, spec: A2mlTypeSpec, ctx: ContextV, c: Cursor)
    ensures
        from_spec_step(inp, spec, ctx, c) !is Fail,
        from_spec_step(inp, spec, ctx, c) matches Step::Done(None, c2) ==> c2.pos == c.pos,
        from_spec_step(inp, spec, ctx, c) matches Step::Done(Some(_), c2) ==> (inp.peek(c2) matches Some(
            t,
        ) && t.ttype == A2lTokenType::End),
{
}

/// A tagged item read according to a specification carries one of the
/// specification's tags, is a block exactly where the specification says so,
/// and, as a block, ends with `/end` and its own tag.
pub proof fn law_tagged_item_matches_spec(inp: Input, v: Vec<A2mlTaggedTypeSpec>, ctx: ContextV, c: Cursor)
    ensures
        taggeditem_step(inp, v, ctx, c) matches Step::Done(Some(item), c2) ==> {
            &&& find_tagged(v, item.tag) matches Some(k) && 0 <= k < v.len() && v@[k].is_block
                == item.is_block
            &&& item.is_block ==> {
                &&& 2 <= c2.pos <= inp.toks.len()
                &&& inp.toks[c2.pos - 2].ttype == A2lTokenType::End
                &&& inp.toks[c2.pos - 1].ttype == A2lTokenType::Identifier
                &&& inp.toks[c2.pos - 1].text@ == item.tag
            }
        },
{
}

} // verus!
