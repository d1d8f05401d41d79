//! Well-formed A2ML specifications: no name twice where A2ML has a map, and
//! every sequence made of an element that always reads a token. Reading with
//! well-formed specifications always ends; both properties can be checked.
use vstd::prelude::*;

use crate::a2ml::{A2mlTaggedTypeSpec, A2mlTypeSpec, IfDataV, TaggedItemV};
use crate::ifdata_spec::{
    array_step, from_spec_step, ifdata_step, item_step, law_from_spec_restores_position, seq_step,
    struct_step, taggeditem_step, taggedstruct_step, try_spec_step, unknown_loop,
    unknown_start_step, unknown_step, unknown_taggedstruct_step, unknown_ts_loop,
};
use crate::parser::{ContextV, Cursor, Input, ParserState, Step};
use crate::tokens::A2lTokenType;

verus! {

/// No two enumerators with the same name.
pub open spec fn enum_names_distinct(v: Vec<(String, Option<i32>)>) -> bool {
    forall|i: int, j: int| 0 <= i < j < v.len() ==> (#[trigger] v@[i]).0@ != (#[trigger] v@[j]).0@
}

/// No two tagged items with the same tag.
pub open spec fn tags_distinct(v: Vec<A2mlTaggedTypeSpec>) -> bool {
    forall|i: int, j: int| 0 <= i < j < v.len() ==> (#[trigger] v@[i]).tag@ != (#[trigger] v@[j]).tag@
}

/// Every enumeration and every tagged struct or union of the specification,
/// at any depth, holds each name at most once (as the maps of the A2ML
/// language do).
pub open spec fn names_unique(s: A2mlTypeSpec) -> bool
    decreases s,
{
    match s {
        A2mlTypeSpec::Array(t, _) => names_unique(*t),
        A2mlTypeSpec::Enum(v) => enum_names_distinct(v),
        A2mlTypeSpec::Struct(v) => forall|i: int| 0 <= i < v.len() ==> names_unique(#[trigger] v@[i]),
        A2mlTypeSpec::Sequence(e) => names_unique(*e),
        A2mlTypeSpec::TaggedStruct(v) => tags_distinct(v) && forall|i: int|
            0 <= i < v.len() ==> names_unique((#[trigger] v@[i]).item),
        A2mlTypeSpec::TaggedUnion(v) => tags_distinct(v) && forall|i: int|
            0 <= i < v.len() ==> names_unique((#[trigger] v@[i]).item),
        _ => true,
    }
}

/// The tagged items of a tagged struct or union: distinct tags, and unique
/// names in their contents.
pub open spec fn tagged_names_unique(v: Vec<A2mlTaggedTypeSpec>) -> bool {
    tags_distinct(v) && forall|i: int| 0 <= i < v.len() ==> names_unique((#[trigger] v@[i]).item)
}

pub open spec fn opt_names_unique(s: Option<A2mlTypeSpec>) -> bool {
    match s {
        Some(x) => names_unique(x),
        None => true,
    }
}

/// Data of this type, where it is read, always reads at least one token.
pub open spec fn productive(s: A2mlTypeSpec) -> bool
    decreases s,
{
    match s {
        A2mlTypeSpec::Empty => false,
        A2mlTypeSpec::Array(t, n) => match *t {
            A2mlTypeSpec::Char => true,
            _ => n > 0 && productive(*t),
        },
        A2mlTypeSpec::Struct(v) => exists|i: int| 0 <= i < v.len() && productive(#[trigger] v@[i]),
        A2mlTypeSpec::Sequence(_) => false,
        A2mlTypeSpec::TaggedStruct(_) => false,
        A2mlTypeSpec::TaggedUnion(_) => false,
        _ => true,
    }
}

/// Every sequence in the specification, at any depth, is made of an element
/// that always reads a token.
pub open spec fn terminating(s: A2mlTypeSpec) -> bool
    decreases s,
{
    match s {
        A2mlTypeSpec::Array(t, _) => terminating(*t),
        A2mlTypeSpec::Struct(v) => forall|i: int| 0 <= i < v.len() ==> terminating(#[trigger] v@[i]),
        A2mlTypeSpec::Sequence(e) => productive(*e) && terminating(*e),
        A2mlTypeSpec::TaggedStruct(v) => forall|i: int|
            0 <= i < v.len() ==> terminating((#[trigger] v@[i]).item),
        A2mlTypeSpec::TaggedUnion(v) => forall|i: int|
            0 <= i < v.len() ==> terminating((#[trigger] v@[i]).item),
        _ => true,
    }
}

pub open spec fn well_formed(s: A2mlTypeSpec) -> bool {
    names_unique(s) && terminating(s)
}

pub open spec fn opt_well_formed(s: Option<A2mlTypeSpec>) -> bool {
    match s {
        Some(x) => well_formed(x),
        None => true,
    }
}


fn enum_names_check(v: &Vec<(String, Option<i32>)>) -> (b: bool)
    ensures
        b == enum_names_distinct(*v),
{
    let mut j: usize = 0;
    while j < v.len()
        invariant
            j <= v.len(),
            forall|a: int, b: int| 0 <= a < b < j ==> (#[trigger] v@[a]).0@ != (#[trigger] v@[b]).0@,
        decreases v.len() - j,
    {
        let mut i: usize = 0;
        while i < j
            invariant
                i <= j < v.len(),
                forall|a: int, b: int| 0 <= a < b < j ==> (#[trigger] v@[a]).0@ != (#[trigger] v@[b]).0@,
                forall|a: int| 0 <= a < i ==> (#[trigger] v@[a]).0@ != v@[j as int].0@,
            decreases j - i,
        {
            if v[i].0 == v[j].0 {
                assert(v@[i as int].0@ == v@[j as int].0@);
                return false;
            }
            i = i + 1;
        }
        j = j + 1;
    }
    true
}

fn tags_check(v: &Vec<A2mlTaggedTypeSpec>) -> (b: bool)
    ensures
        b == tags_distinct(*v),
{
    let mut j: usize = 0;
    while j < v.len()
        invariant
            j <= v.len(),
            forall|a: int, b: int| 0 <= a < b < j ==> (#[trigger] v@[a]).tag@ != (#[trigger] v@[b]).tag@,
        decreases v.len() - j,
    {
        let mut i: usize = 0;
        while i < j
            invariant
                i <= j < v.len(),
                forall|a: int, b: int| 0 <= a < b < j ==> (#[trigger] v@[a]).tag@ != (#[trigger] v@[b]).tag@,
                forall|a: int| 0 <= a < i ==> (#[trigger] v@[a]).tag@ != v@[j as int].tag@,
            decreases j - i,
        {
            if v[i].tag == v[j].tag {
                assert(v@[i as int].tag@ == v@[j as int].tag@);
                return false;
            }
            i = i + 1;
        }
        j = j + 1;
    }
    true
}

/// Whether every enumeration and tagged struct or union of the
/// specification holds each name at most once.
pub fn a2ml_names_unique(s: &A2mlTypeSpec) -> (b: bool)
    ensures
        b == names_unique(*s),
    decreases s,
{
    match s {
        A2mlTypeSpec::Array(t, _) => a2ml_names_unique(t),
        A2mlTypeSpec::Enum(v) => enum_names_check(v),
        A2mlTypeSpec::Struct(v) => {
            let mut i: usize = 0;
            while i < v.len()
                invariant
                    i <= v.len(),
                    *s == A2mlTypeSpec::Struct(*v),
                    forall|k: int| 0 <= k < i ==> names_unique(#[trigger] v@[k]),
                decreases v.len() - i,
            {
                proof {
                    assert(decreases_to!(*s => (*s)->Struct_0));
                    assert(decreases_to!((*s)->Struct_0 => (*s)->Struct_0@));
                    assert(decreases_to!((*s)->Struct_0@ => (*s)->Struct_0@[i as int]));
                }
                if !a2ml_names_unique(&v[i]) {
                    return false;
                }
                i = i + 1;
            }
            true
        },
        A2mlTypeSpec::Sequence(e) => a2ml_names_unique(e),
        A2mlTypeSpec::TaggedStruct(v) => tagged_names_check(s, v),
        A2mlTypeSpec::TaggedUnion(v) => tagged_names_check(s, v),
        _ => true,
    }
}

fn tagged_names_check(s: &A2mlTypeSpec, v: &Vec<A2mlTaggedTypeSpec>) -> (b: bool)
    requires
        *s == A2mlTypeSpec::TaggedStruct(*v) || *s == A2mlTypeSpec::TaggedUnion(*v),
    ensures
        b == tagged_names_unique(*v),
    decreases s, 1int,
{
    if !tags_check(v) {
        return false;
    }
    let mut i: usize = 0;
    while i < v.len()
        invariant
            i <= v.len(),
            *s == A2mlTypeSpec::TaggedStruct(*v) || *s == A2mlTypeSpec::TaggedUnion(*v),
            forall|k: int| 0 <= k < i ==> names_unique((#[trigger] v@[k]).item),
        decreases v.len() - i,
    {
        proof {
            assert(decreases_to!(*v => v@));
            assert(decreases_to!(v@ => v@[i as int]));
            assert(decreases_to!(v@[i as int] => v@[i as int].item));
            if *s == A2mlTypeSpec::TaggedStruct(*v) {
                assert(decreases_to!(*s => (*s)->TaggedStruct_0));
            } else {
                assert(decreases_to!(*s => (*s)->TaggedUnion_0));
            }
        }
        if !a2ml_names_unique(&v[i].item) {
            return false;
        }
        i = i + 1;
    }
    true
}

/// Whether data of this type, where it is read, always reads a token.
pub fn a2ml_productive(s: &A2mlTypeSpec) -> (b: bool)
    ensures
        b == productive(*s),
    decreases s,
{
    match s {
        A2mlTypeSpec::Empty => false,
        A2mlTypeSpec::Array(t, n) => {
            if let A2mlTypeSpec::Char = **t {
                true
            } else {
                *n > 0 && a2ml_productive(t)
            }
        },
        A2mlTypeSpec::Struct(v) => {
            let mut i: usize = 0;
            while i < v.len()
                invariant
                    i <= v.len(),
                    *s == A2mlTypeSpec::Struct(*v),
                    forall|k: int| 0 <= k < i ==> !productive(#[trigger] v@[k]),
                decreases v.len() - i,
            {
                proof {
                    assert(decreases_to!(*s => (*s)->Struct_0));
                    assert(decreases_to!((*s)->Struct_0 => (*s)->Struct_0@));
                    assert(decreases_to!((*s)->Struct_0@ => (*s)->Struct_0@[i as int]));
                }
                if a2ml_productive(&v[i]) {
                    return true;
                }
                i = i + 1;
            }
            false
        },
        A2mlTypeSpec::Sequence(_) => false,
        A2mlTypeSpec::TaggedStruct(_) => false,
        A2mlTypeSpec::TaggedUnion(_) => false,
        _ => true,
    }
}

/// Whether every sequence of the specification is made of an element that
/// always reads a token.
pub fn a2ml_terminating(s: &A2mlTypeSpec) -> (b: bool)
    ensures
        b == terminating(*s),
    decreases s,
{
    match s {
        A2mlTypeSpec::Array(t, _) => a2ml_terminating(t),
        A2mlTypeSpec::Struct(v) => {
            let mut i: usize = 0;
            while i < v.len()
                invariant
                    i <= v.len(),
                    *s == A2mlTypeSpec::Struct(*v),
                    forall|k: int| 0 <= k < i ==> terminating(#[trigger] v@[k]),
                decreases v.len() - i,
            {
                proof {
                    assert(decreases_to!(*s => (*s)->Struct_0));
                    assert(decreases_to!((*s)->Struct_0 => (*s)->Struct_0@));
                    assert(decreases_to!((*s)->Struct_0@ => (*s)->Struct_0@[i as int]));
                }
                if !a2ml_terminating(&v[i]) {
                    return false;
                }
                i = i + 1;
            }
            true
        },
        A2mlTypeSpec::Sequence(e) => a2ml_productive(e) && a2ml_terminating(e),
        A2mlTypeSpec::TaggedStruct(v) => tagged_terminating_check(s, v),
        A2mlTypeSpec::TaggedUnion(v) => tagged_terminating_check(s, v),
        _ => true,
    }
}

fn tagged_terminating_check(s: &A2mlTypeSpec, v: &Vec<A2mlTaggedTypeSpec>) -> (b: bool)
    requires
        *s == A2mlTypeSpec::TaggedStruct(*v) || *s == A2mlTypeSpec::TaggedUnion(*v),
    ensures
        b == forall|k: int| 0 <= k < v.len() ==> terminating((#[trigger] v@[k]).item),
    decreases s, 1int,
{
    let mut i: usize = 0;
    while i < v.len()
        invariant
            i <= v.len(),
            *s == A2mlTypeSpec::TaggedStruct(*v) || *s == A2mlTypeSpec::TaggedUnion(*v),
            forall|k: int| 0 <= k < i ==> terminating((#[trigger] v@[k]).item),
        decreases v.len() - i,
    {
        proof {
            assert(decreases_to!(*v => v@));
            assert(decreases_to!(v@ => v@[i as int]));
            assert(decreases_to!(v@[i as int] => v@[i as int].item));
            if *s == A2mlTypeSpec::TaggedStruct(*v) {
                assert(decreases_to!(*s => (*s)->TaggedStruct_0));
            } else {
                assert(decreases_to!(*s => (*s)->TaggedUnion_0));
            }
        }
        if !a2ml_terminating(&v[i].item) {
            return false;
        }
        i = i + 1;
    }
    true
}

/// Whether the specification is well-formed: names unique, and reading with
/// it always ends.
pub fn a2ml_well_formed(s: &A2mlTypeSpec) -> (b: bool)
    ensures
        b == well_formed(*s),
{
    a2ml_names_unique(s) && a2ml_terminating(s)
}


/// Reading data of a type whose sequences all read tokens always ends; where
/// it succeeds, the cursor has not moved back and stands inside the tokens,
/// and where the type always reads a token, it has moved on.
pub proof fn lemma_item_terminates(inp: Input, spec: A2mlTypeSpec, ctx: ContextV, c: Cursor)
    requires
        terminating(spec),
        0 <= c.pos <= inp.toks.len(),
    ensures
        item_step(inp, spec, ctx, c) !is Diverge,
        item_step(inp, spec, ctx, c) matches Step::Done(_, c2) ==> c.pos <= c2.pos
            <= inp.toks.len() && (productive(spec) ==> c.pos < c2.pos),
    decreases spec, 1int, 0int,
{
    match spec {
        A2mlTypeSpec::Array(t, dim) => {
            match *t {
                A2mlTypeSpec::Char => {},
                _ => {
                    lemma_array_terminates(inp, *t, dim as int, ctx, c, seq![]);
                },
            }
        },
        A2mlTypeSpec::Struct(v) => {
            lemma_struct_terminates(inp, v, 0, ctx, c, seq![]);
        },
        A2mlTypeSpec::Sequence(e) => {
            lemma_seq_terminates(inp, *e, ctx, c, seq![]);
        },
        A2mlTypeSpec::TaggedStruct(v) => {
            lemma_taggedstruct_terminates(inp, v, ctx, c, seq![]);
        },
        A2mlTypeSpec::TaggedUnion(v) => {
            lemma_taggeditem_terminates(inp, v, ctx, c);
        },
        _ => {},
    }
}

proof fn lemma_array_terminates(
    inp: Input,
    elem: A2mlTypeSpec,
    n: int,
    ctx: ContextV,
    c: Cursor,
    acc: Seq<IfDataV>,
)
    requires
        terminating(elem),
        0 <= c.pos <= inp.toks.len(),
    ensures
        array_step(inp, elem, n, ctx, c, acc) !is Diverge,
        array_step(inp, elem, n, ctx, c, acc) matches Step::Done(_, c2) ==> c.pos <= c2.pos
            <= inp.toks.len() && (n > 0 && productive(elem) ==> c.pos < c2.pos),
    decreases elem, 2int, n,
{
    if n > 0 {
        lemma_item_terminates(inp, elem, ctx, c);
        match item_step(inp, elem, ctx, c) {
            Step::Done(v, d) => {
                lemma_array_terminates(inp, elem, n - 1, ctx, d, acc.push(v));
            },
            _ => {},
        }
    }
}

proof fn lemma_struct_terminates(
    inp: Input,
    v: Vec<A2mlTypeSpec>,
    i: int,
    ctx: ContextV,
    c: Cursor,
    acc: Seq<IfDataV>,
)
    requires
        forall|k: int| 0 <= k < v.len() ==> terminating(#[trigger] v@[k]),
        0 <= c.pos <= inp.toks.len(),
    ensures
        struct_step(inp, v, i, ctx, c, acc) !is Diverge,
        struct_step(inp, v, i, ctx, c, acc) matches Step::Done(_, c2) ==> c.pos <= c2.pos
            <= inp.toks.len() && ((exists|k: int| 0 <= i <= k < v.len() && productive(#[trigger] v@[k]))
            ==> c.pos < c2.pos),
    decreases v, 2int, v.len() - i,
{
    if 0 <= i < v.len() {
        lemma_item_terminates(inp, v@[i], ctx, c);
        match item_step(inp, v@[i], ctx, c) {
            Step::Done(x, d) => {
                lemma_struct_terminates(inp, v, i + 1, ctx, d, acc.push(x));
                if exists|k: int| 0 <= i <= k < v.len() && productive(#[trigger] v@[k]) {
                    let k = choose|k: int| 0 <= i <= k < v.len() && productive(#[trigger] v@[k]);
                    if k > i {
                        assert(0 <= i + 1 <= k < v.len() && productive(v@[k]));
                    }
                }
            },
            _ => {},
        }
    }
}

proof fn lemma_seq_terminates(inp: Input, elem: A2mlTypeSpec, ctx: ContextV, c: Cursor, acc: Seq<IfDataV>)
    requires
        terminating(elem),
        productive(elem),
        0 <= c.pos <= inp.toks.len(),
    ensures
        seq_step(inp, elem, ctx, c, acc) !is Diverge,
        seq_step(inp, elem, ctx, c, acc) matches Step::Done(_, c2) ==> c.pos <= c2.pos
            <= inp.toks.len(),
    decreases elem, 2int, inp.toks.len() - c.pos,
{
    lemma_item_terminates(inp, elem, ctx, c);
    match item_step(inp, elem, ctx, c) {
        Step::Done(v, d) => {
            lemma_seq_terminates(inp, elem, ctx, d, acc.push(v));
        },
        _ => {},
    }
}

proof fn lemma_taggedstruct_terminates(
    inp: Input,
    v: Vec<A2mlTaggedTypeSpec>,
    ctx: ContextV,
    c: Cursor,
    acc: Seq<TaggedItemV>,
)
    requires
        forall|k: int| 0 <= k < v.len() ==> terminating((#[trigger] v@[k]).item),
        0 <= c.pos <= inp.toks.len(),
    ensures
        taggedstruct_step(inp, v, ctx, c, acc) !is Diverge,
        taggedstruct_step(inp, v, ctx, c, acc) matches Step::Done(_, c2) ==> c.pos <= c2.pos
            <= inp.toks.len(),
    decreases v, 3int, inp.toks.len() - c.pos,
{
    lemma_taggeditem_terminates(inp, v, ctx, c);
    match taggeditem_step(inp, v, ctx, c) {
        Step::Done(Some(item), d) => {
            lemma_taggedstruct_terminates(inp, v, ctx, d, acc.push(item));
        },
        _ => {},
    }
}

proof fn lemma_block_end_moves(inp: Input, ctx: ContextV, c: Cursor, tag: Seq<char>)
    requires
        0 <= c.pos <= inp.toks.len(),
    ensures
        crate::ifdata_spec::block_end(inp, ctx, c, tag) matches Step::Done(_, c2) ==> c2.pos
            == c.pos + 2 && c2.pos <= inp.toks.len(),
        crate::ifdata_spec::block_end(inp, ctx, c, tag) !is Diverge,
{
}

proof fn lemma_taggeditem_terminates(inp: Input, v: Vec<A2mlTaggedTypeSpec>, ctx: ContextV, c: Cursor)
    requires
        forall|k: int| 0 <= k < v.len() ==> terminating((#[trigger] v@[k]).item),
        0 <= c.pos <= inp.toks.len(),
    ensures
        taggeditem_step(inp, v, ctx, c) !is Diverge,
        taggeditem_step(inp, v, ctx, c) matches Step::Done(Some(_), c2) ==> c.pos < c2.pos
            <= inp.toks.len(),
        taggeditem_step(inp, v, ctx, c) matches Step::Done(None, c2) ==> c2.pos == c.pos,
    decreases v, 2int, 0int,
{
    let (tagres, c1) = inp.next_tag(ctx, c);
    match tagres {
        Some((tok, is_block, _)) => {
            match crate::ifdata_spec::find_tagged(v, tok.text@) {
                Some(k) => if 0 <= k < v.len() && v@[k].is_block == is_block {
                    let c2 = crate::parser::bump_id(c1);
                    let nctx = crate::parser::context_from_token(tok.text@, tok, is_block);
                    assert(terminating(v@[k].item));
                    lemma_item_terminates(inp, v@[k].item, nctx, c2);
                    match item_step(inp, v@[k].item, nctx, c2) {
                        Step::Done(_, c3) => {
                            lemma_block_end_moves(inp, nctx, c3, tok.text@);
                        },
                        _ => {},
                    }
                },
                None => {},
            }
        },
        None => {},
    }
}

proof fn lemma_unknown_loop_terminates(
    inp: Input,
    ctx: ContextV,
    is_block: bool,
    c: Cursor,
    acc: Seq<IfDataV>,
)
    requires
        0 <= c.pos <= inp.toks.len(),
    ensures
        unknown_loop(inp, ctx, is_block, c, acc) !is Diverge,
        unknown_loop(inp, ctx, is_block, c, acc) matches Step::Done(_, c2) ==> c.pos <= c2.pos
            <= inp.toks.len(),
    decreases inp.toks.len() - c.pos, 3int,
{
    match inp.peek(c) {
        None => {},
        Some(t) => {
            let off = inp.line_offset(c);
            let c1 = Cursor { pos: c.pos + 1, last_line: t.line, ..c };
            match t.ttype {
                A2lTokenType::Identifier => {
                    lemma_unknown_loop_terminates(
                        inp,
                        ctx,
                        is_block,
                        c1,
                        acc.push(IfDataV::EnumItem(off, t.text@)),
                    );
                },
                A2lTokenType::String => {
                    lemma_unknown_loop_terminates(
                        inp,
                        ctx,
                        is_block,
                        c1,
                        acc.push(IfDataV::String(off, t.text@)),
                    );
                },
                A2lTokenType::Number => {
                    match crate::number::int_in_range(t.text@, i32::MIN as int, i32::MAX as int) {
                        Some(v) => {
                            lemma_unknown_loop_terminates(
                                inp,
                                ctx,
                                is_block,
                                c1,
                                acc.push(IfDataV::Long(off, v as i32)),
                            );
                        },
                        None => {
                            lemma_unknown_loop_terminates(
                                inp,
                                ctx,
                                is_block,
                                c1,
                                acc.push(IfDataV::Float(off, t.text@)),
                            );
                        },
                    }
                },
                A2lTokenType::Begin => if is_block {
                    lemma_unknown_taggedstruct_terminates(inp, ctx, c);
                    match unknown_taggedstruct_step(inp, ctx, c) {
                        Step::Done(d, c2) => {
                            lemma_unknown_loop_terminates(inp, ctx, is_block, c2, acc.push(d));
                        },
                        _ => {},
                    }
                },
                A2lTokenType::End => {},
                A2lTokenType::Include => {
                    lemma_unknown_loop_terminates(inp, ctx, is_block, c1, acc);
                },
            }
        },
    }
}

/// Reading data of unknown format always ends.
pub proof fn lemma_unknown_terminates(inp: Input, ctx: ContextV, is_block: bool, c: Cursor)
    requires
        0 <= c.pos <= inp.toks.len(),
    ensures
        unknown_step(inp, ctx, is_block, c) !is Diverge,
        unknown_step(inp, ctx, is_block, c) matches Step::Done(_, c2) ==> c.pos <= c2.pos
            <= inp.toks.len(),
    decreases inp.toks.len() - c.pos, 4int,
{
    lemma_unknown_loop_terminates(inp, ctx, is_block, c, seq![]);
}

/// Gathering the blocks of data of unknown format always ends; where it
/// starts at a `/begin` and succeeds, it has read on.
pub proof fn lemma_unknown_taggedstruct_terminates(inp: Input, ctx: ContextV, c: Cursor)
    requires
        0 <= c.pos <= inp.toks.len(),
    ensures
        unknown_taggedstruct_step(inp, ctx, c) !is Diverge,
        unknown_taggedstruct_step(inp, ctx, c) matches Step::Done(_, c2) ==> c.pos <= c2.pos
            <= inp.toks.len() && (inp.peek(c) matches Some(t) && t.ttype == A2lTokenType::Begin
            ==> c.pos < c2.pos),
    decreases inp.toks.len() - c.pos, 2int,
{
    lemma_unknown_ts_loop_terminates(inp, ctx, c, seq![]);
}

proof fn lemma_unknown_ts_loop_terminates(inp: Input, ctx: ContextV, c: Cursor, acc: Seq<TaggedItemV>)
    requires
        0 <= c.pos <= inp.toks.len(),
    ensures
        unknown_ts_loop(inp, ctx, c, acc) !is Diverge,
        unknown_ts_loop(inp, ctx, c, acc) matches Step::Done(_, c2) ==> c.pos <= c2.pos
            <= inp.toks.len() && (c2.pos == c.pos ==> inp.next_tag(ctx, c).0 is None),
    decreases inp.toks.len() - c.pos, 1int,
{
    let (tagres, c1) = inp.next_tag(ctx, c);
    match tagres {
        Some((tok, is_block, start_offset)) => {
            let c2 = crate::parser::bump_id(c1);
            let tag = tok.text@;
            let nctx = crate::parser::context_from_token(tag, tok, true);
            lemma_unknown_terminates(inp, nctx, is_block, c2);
            match unknown_step(inp, nctx, is_block, c2) {
                Step::Done(d, c3) => {
                    lemma_block_end_moves(inp, nctx, c3, tag);
                    let item = TaggedItemV {
                        incfile: inp.incfile(nctx.fileid),
                        line: nctx.line,
                        uid: c2.next_id,
                        start_offset: start_offset,
                        end_offset: inp.line_offset(c3),
                        tag: tag,
                        data: d,
                        is_block: is_block,
                    };
                    let end = if is_block {
                        crate::ifdata_spec::block_end(inp, nctx, c3, tag)
                    } else {
                        Step::Done((), c3)
                    };
                    match end {
                        Step::Done(_, c4) => {
                            lemma_unknown_ts_loop_terminates(inp, ctx, c4, acc.push(item));
                        },
                        _ => {},
                    }
                },
                _ => {},
            }
        },
        None => {},
    }
}

/// Reading an IF_DATA block with well-formed specifications (or none)
/// always ends: this is how a caller meets the `requires` of `parse_ifdata`.
pub proof fn law_well_formed_specs_terminate(
    inp: Input,
    builtin: Option<A2mlTypeSpec>,
    file: Option<A2mlTypeSpec>,
    ctx: ContextV,
    c: Cursor,
)
    requires
        opt_well_formed(builtin),
        opt_well_formed(file),
        0 <= c.pos <= inp.toks.len(),
    ensures
        ifdata_step(inp, builtin, file, ctx, c) !is Diverge,
{
    if let Some(b) = builtin {
        lemma_item_terminates(inp, b, ctx, c);
        law_from_spec_restores_position(inp, b, ctx, c);
    }
    match try_spec_step(inp, builtin, ctx, c) {
        Step::Done(None, c1) => {
            if let Some(f) = file {
                lemma_item_terminates(inp, f, ctx, c1);
                law_from_spec_restores_position(inp, f, ctx, c1);
            }
            match try_spec_step(inp, file, ctx, c1) {
                Step::Done(None, c2) => {
                    lemma_unknown_terminates(inp, ctx, true, c2);
                    if let Some(t) = inp.peek(c2) {
                        if t.ttype == A2lTokenType::Identifier {
                            let c3 = Cursor { pos: c2.pos + 1, last_line: t.line, ..c2 };
                            let nctx = crate::parser::context_from_token(t.text@, t, false);
                            lemma_unknown_terminates(inp, nctx, true, crate::parser::bump_id(c3));
                        }
                    }
                },
                _ => {},
            }
        },
        _ => {},
    }
}

/// Reading with a well-formed specification always ends.
pub proof fn law_well_formed_spec_terminates(inp: Input, spec: A2mlTypeSpec, ctx: ContextV, c: Cursor)
    requires
        well_formed(spec),
        0 <= c.pos <= inp.toks.len(),
    ensures
        item_step(inp, spec, ctx, c) !is Diverge,
        from_spec_step(inp, spec, ctx, c) !is Diverge,
{
    lemma_item_terminates(inp, spec, ctx, c);
}

/// Reading generically always ends.
pub proof fn law_unknown_start_terminates(inp: Input, ctx: ContextV, c: Cursor)
    requires
        0 <= c.pos <= inp.toks.len(),
    ensures
        unknown_start_step(inp, ctx, c) !is Diverge,
{
    lemma_unknown_terminates(inp, ctx, true, c);
    if let Some(t) = inp.peek(c) {
        if t.ttype == A2lTokenType::Identifier {
            let c3 = Cursor { pos: c.pos + 1, last_line: t.line, ..c };
            let nctx = crate::parser::context_from_token(t.text@, t, false);
            lemma_unknown_terminates(inp, nctx, true, crate::parser::bump_id(c3));
        }
    }
}

/// Whether both A2ML specifications of the parser are well-formed (or
/// absent). Where they are, `law_well_formed_specs_terminate` meets the
/// `requires` of `parse_ifdata`.
pub fn parser_specs_well_formed(parser: &ParserState) -> (b: bool)
    ensures
        b == (opt_well_formed(parser.builtin_a2mlspec) && opt_well_formed(parser.file_a2mlspec)),
{
    let b1 = match &parser.builtin_a2mlspec {
        Some(s) => a2ml_well_formed(s),
        None => true,
    };
    let b2 = match &parser.file_a2mlspec {
        Some(s) => a2ml_well_formed(s),
        None => true,
    };
    b1 && b2
}

} // verus!
