//! Laws of IF_DATA parsing according to a specification: what reading
//! depends on, where sequences and tagged structs stop, and what the flag of
//! `parse_ifdata` says.
use vstd::prelude::*;

use crate::a2ml::{make_block_view, A2mlTaggedTypeSpec, A2mlTypeSpec, IfDataV, TaggedItemV};
use crate::ifdata_spec::{
    array_step, from_spec_step, ifdata_step, item_step, law_from_spec_restores_position, seq_step,
    struct_step, taggeditem_step, taggedstruct_step, try_spec_step, unknown_start_step,
    unknown_step,
};
use crate::number::int_text_value;
use crate::parser::{ContextV, Cursor, ErrorV, Input, Step};
use crate::tokens::A2lTokenType;

verus! {

/// Two steps end alike: both read to the same position, or both fail with
/// the same error at the same position, or both never end.
pub open spec fn same_outcome<T>(a: Step<T>, b: Step<T>) -> bool {
    match a {
        Step::Done(_, x) => b matches Step::Done(_, y) && x.pos == y.pos,
        Step::Fail(e, x) => b matches Step::Fail(f, y) && e == f && x.pos == y.pos,
        Step::Diverge => b is Diverge,
    }
}

/// Whether reading an item succeeds, where it stops and which error it
/// gives depend only on the position, not on the line read last or on the
/// ids handed out so far.
pub proof fn lemma_item_indep(inp: Input, spec: A2mlTypeSpec, ctx: ContextV, c1: Cursor, c2: Cursor)
    requires
        c1.pos == c2.pos,
    ensures
        same_outcome(item_step(inp, spec, ctx, c1), item_step(inp, spec, ctx, c2)),
    decreases spec, 1int, 0int,
{
    match spec {
        A2mlTypeSpec::Array(t, dim) => {
            match *t {
                A2mlTypeSpec::Char => {},
                _ => {
                    lemma_array_indep(inp, *t, dim as int, ctx, c1, c2, seq![], seq![]);
                },
            }
        },
        A2mlTypeSpec::Struct(v) => {
            lemma_struct_indep(inp, v, 0, ctx, c1, c2, seq![], seq![]);
        },
        A2mlTypeSpec::Sequence(e) => {
            lemma_seq_indep(inp, *e, ctx, c1, c2, seq![], seq![]);
        },
        A2mlTypeSpec::TaggedStruct(v) => {
            lemma_taggedstruct_indep(inp, v, ctx, c1, c2, seq![], seq![]);
        },
        A2mlTypeSpec::TaggedUnion(v) => {
            lemma_taggeditem_indep(inp, v, ctx, c1, c2);
        },
        _ => {},
    }
}

proof fn lemma_array_indep(
    inp: Input,
    elem: A2mlTypeSpec,
    n: int,
    ctx: ContextV,
    c1: Cursor,
    c2: Cursor,
    a1: Seq<IfDataV>,
    a2: Seq<IfDataV>,
)
    requires
        c1.pos == c2.pos,
    ensures
        same_outcome(array_step(inp, elem, n, ctx, c1, a1), array_step(inp, elem, n, ctx, c2, a2)),
    decreases elem, 2int, n,
{
    if n > 0 {
        lemma_item_indep(inp, elem, ctx, c1, c2);
        match (item_step(inp, elem, ctx, c1), item_step(inp, elem, ctx, c2)) {
            (Step::Done(v, d1), Step::Done(w, d2)) => {
                lemma_array_indep(inp, elem, n - 1, ctx, d1, d2, a1.push(v), a2.push(w));
            },
            _ => {},
        }
    }
}

proof fn lemma_struct_indep(
    inp: Input,
    v: Vec<A2mlTypeSpec>,
    i: int,
    ctx: ContextV,
    c1: Cursor,
    c2: Cursor,
    a1: Seq<IfDataV>,
    a2: Seq<IfDataV>,
)
    requires
        c1.pos == c2.pos,
    ensures
        same_outcome(struct_step(inp, v, i, ctx, c1, a1), struct_step(inp, v, i, ctx, c2, a2)),
    decreases v, 2int, v.len() - i,
{
    if 0 <= i < v.len() {
        lemma_item_indep(inp, v@[i], ctx, c1, c2);
        match (item_step(inp, v@[i], ctx, c1), item_step(inp, v@[i], ctx, c2)) {
            (Step::Done(x, d1), Step::Done(y, d2)) => {
                lemma_struct_indep(inp, v, i + 1, ctx, d1, d2, a1.push(x), a2.push(y));
            },
            _ => {},
        }
    }
}

proof fn lemma_seq_indep(
    inp: Input,
    elem: A2mlTypeSpec,
    ctx: ContextV,
    c1: Cursor,
    c2: Cursor,
    a1: Seq<IfDataV>,
    a2: Seq<IfDataV>,
)
    requires
        c1.pos == c2.pos,
    ensures
        same_outcome(seq_step(inp, elem, ctx, c1, a1), seq_step(inp, elem, ctx, c2, a2)),
    decreases elem, 2int, inp.toks.len() - c1.pos,
{
    lemma_item_indep(inp, elem, ctx, c1, c2);
    match (item_step(inp, elem, ctx, c1), item_step(inp, elem, ctx, c2)) {
        (Step::Done(v, d1), Step::Done(w, d2)) => {
            if c1.pos < d1.pos <= inp.toks.len() {
                lemma_seq_indep(inp, elem, ctx, d1, d2, a1.push(v), a2.push(w));
            }
        },
        _ => {},
    }
}

proof fn lemma_taggedstruct_indep(
    inp: Input,
    v: Vec<A2mlTaggedTypeSpec>,
    ctx: ContextV,
    c1: Cursor,
    c2: Cursor,
    a1: Seq<TaggedItemV>,
    a2: Seq<TaggedItemV>,
)
    requires
        c1.pos == c2.pos,
    ensures
        same_outcome(
            taggedstruct_step(inp, v, ctx, c1, a1),
            taggedstruct_step(inp, v, ctx, c2, a2),
        ),
    decreases v, 3int, inp.toks.len() - c1.pos,
{
    lemma_taggeditem_indep(inp, v, ctx, c1, c2);
    match (taggeditem_step(inp, v, ctx, c1), taggeditem_step(inp, v, ctx, c2)) {
        (Step::Done(Some(x), d1), Step::Done(Some(y), d2)) => {
            if c1.pos < d1.pos <= inp.toks.len() {
                lemma_taggedstruct_indep(inp, v, ctx, d1, d2, a1.push(x), a2.push(y));
            }
        },
        _ => {},
    }
}

/// The same for a tagged item; whether an item is read does not depend on
/// the line read last or the ids either. Where none is read, the position
/// stays.
pub proof fn lemma_taggeditem_indep(
    inp: Input,
    v: Vec<A2mlTaggedTypeSpec>,
    ctx: ContextV,
    c1: Cursor,
    c2: Cursor,
)
    requires
        c1.pos == c2.pos,
    ensures
        same_outcome(taggeditem_step(inp, v, ctx, c1), taggeditem_step(inp, v, ctx, c2)),
        taggeditem_step(inp, v, ctx, c1) matches Step::Done(r1, _) ==> (taggeditem_step(
            inp,
            v,
            ctx,
            c2,
        ) matches Step::Done(r2, _) && (r1 is Some <==> r2 is Some)),
        taggeditem_step(inp, v, ctx, c1) matches Step::Done(None, d1) ==> d1.pos == c1.pos,
    decreases v, 2int, 0int,
{
    let (tr1, e1) = inp.next_tag(ctx, c1);
    let (tr2, e2) = inp.next_tag(ctx, c2);
    assert(e1.pos == e2.pos);
    match (tr1, tr2) {
        (Some((tok1, b1, s1)), Some((tok2, b2, s2))) => {
            assert(tok1 == tok2 && b1 == b2);
            match crate::ifdata_spec::find_tagged(v, tok1.text@) {
                Some(k) => if 0 <= k < v.len() && v@[k].is_block == b1 {
                    let f1 = crate::parser::bump_id(e1);
                    let f2 = crate::parser::bump_id(e2);
                    let nctx = crate::parser::context_from_token(tok1.text@, tok1, b1);
                    lemma_item_indep(inp, v@[k].item, nctx, f1, f2);
                },
                None => {},
            }
        },
        _ => {},
    }
}

/// The same for reading a whole block according to a specification.
pub proof fn lemma_from_spec_indep(inp: Input, spec: A2mlTypeSpec, ctx: ContextV, c1: Cursor, c2: Cursor)
    requires
        c1.pos == c2.pos,
    ensures
        from_spec_step(inp, spec, ctx, c1) matches Step::Done(r1, _) ==> (from_spec_step(
            inp,
            spec,
            ctx,
            c2,
        ) matches Step::Done(r2, _) && (r1 is Some <==> r2 is Some)),
        from_spec_step(inp, spec, ctx, c1) is Diverge <==> from_spec_step(inp, spec, ctx, c2) is Diverge,
{
    lemma_item_indep(inp, spec, ctx, c1, c2);
}

proof fn lemma_seq_maximal(inp: Input, elem: A2mlTypeSpec, ctx: ContextV, c: Cursor, acc: Seq<IfDataV>)
    ensures
        seq_step(inp, elem, ctx, c, acc) !is Fail,
        seq_step(inp, elem, ctx, c, acc) matches Step::Done(_, c2) ==> item_step(
            inp,
            elem,
            ctx,
            c2,
        ) is Fail,
    decreases inp.toks.len() - c.pos,
{
    match item_step(inp, elem, ctx, c) {
        Step::Done(v, d) => {
            if c.pos < d.pos <= inp.toks.len() {
                lemma_seq_maximal(inp, elem, ctx, d, acc.push(v));
            }
        },
        Step::Fail(_, d) => {
            lemma_item_indep(inp, elem, ctx, c, crate::parser::with_pos(d, c.pos));
        },
        Step::Diverge => {},
    }
}

/// A sequence never fails: it reads elements as long as they can be read,
/// and where it stops, reading one more element fails.
pub proof fn law_sequence_is_maximal(inp: Input, spec: A2mlTypeSpec, ctx: ContextV, c: Cursor)
    requires
        spec is Sequence,
    ensures
        item_step(inp, spec, ctx, c) !is Fail,
        item_step(inp, spec, ctx, c) matches Step::Done(d, c2) ==> (d is Sequence && item_step(
            inp,
            *spec->Sequence_0,
            ctx,
            c2,
        ) is Fail),
{
    lemma_seq_maximal(inp, *spec->Sequence_0, ctx, c, seq![]);
}

/// A tagged struct stops only where no further tagged item of it can be
/// read: reading one from where it stopped gives none and leaves the
/// position.
pub proof fn law_taggedstruct_stops_where_no_item_follows(
    inp: Input,
    v: Vec<A2mlTaggedTypeSpec>,
    ctx: ContextV,
    c: Cursor,
    acc: Seq<TaggedItemV>,
)
    ensures
        taggedstruct_step(inp, v, ctx, c, acc) matches Step::Done(_, c2) ==> (taggeditem_step(
            inp,
            v,
            ctx,
            c2,
        ) matches Step::Done(None, c3) && c3.pos == c2.pos),
    decreases inp.toks.len() - c.pos,
{
    lemma_taggeditem_indep(inp, v, ctx, c, c);
    match taggeditem_step(inp, v, ctx, c) {
        Step::Done(Some(item), d) => {
            if c.pos < d.pos <= inp.toks.len() {
                law_taggedstruct_stops_where_no_item_follows(inp, v, ctx, d, acc.push(item));
            }
        },
        Step::Done(None, d) => {
            lemma_taggeditem_indep(inp, v, ctx, c, d);
            lemma_taggeditem_indep(inp, v, ctx, d, d);
        },
        _ => {},
    }
}

/// Where no identifier comes first, reading the start of unknown data is
/// reading unknown data as a block.
pub proof fn law_unknown_start_without_tag(inp: Input, ctx: ContextV, c: Cursor)
    requires
        !(inp.peek(c) matches Some(t) && t.ttype == A2lTokenType::Identifier),
    ensures
        unknown_start_step(inp, ctx, c) == unknown_step(inp, ctx, true, c),
{
}

/// Reading according to a specification gives data exactly where the item
/// is read and the block's `/end` comes next; the data is then the item made
/// into a block, and the cursor stays at the `/end`.
pub proof fn law_from_spec_exact(inp: Input, spec: A2mlTypeSpec, ctx: ContextV, c: Cursor)
    ensures
        (from_spec_step(inp, spec, ctx, c) matches Step::Done(Some(_), _)) <==> (item_step(
            inp,
            spec,
            ctx,
            c,
        ) matches Step::Done(_, c3) && inp.peek(c3) matches Some(t) && t.ttype
            == A2lTokenType::End),
        item_step(inp, spec, ctx, c) matches Step::Done(x, c3) ==> (inp.peek(c3) matches Some(t)
            && t.ttype == A2lTokenType::End ==> from_spec_step(inp, spec, ctx, c) == Step::Done(
            Some(make_block_view(x, inp.incfile(ctx.fileid), ctx.line)),
            c3,
        )),
{
}

/// The flag that `parse_ifdata` returns with data is true exactly where the
/// built-in or the file's specification reads the block (each tried from
/// where the block starts); where it is false, the data is the generic
/// reading of the block from its start.
pub proof fn law_ifdata_flag(
    inp: Input,
    builtin: Option<A2mlTypeSpec>,
    file: Option<A2mlTypeSpec>,
    ctx: ContextV,
    c: Cursor,
)
    requires
        inp.peek(c) matches Some(t) && t.ttype != A2lTokenType::End,
    ensures
        ifdata_step(inp, builtin, file, ctx, c) matches Step::Done((Some(d), v), _) ==> {
            &&& v <==> ((builtin matches Some(b) && from_spec_step(inp, b, ctx, c) matches Step::Done(
                Some(_),
                _,
            )) || (file matches Some(f) && from_spec_step(inp, f, ctx, c) matches Step::Done(
                Some(_),
                _,
            )))
            &&& !v ==> exists|c2: Cursor|
                c2.pos == c.pos && (#[trigger] unknown_start_step(inp, ctx, c2) is Done)
                    && unknown_start_step(inp, ctx, c2)->Done_0 == d
        },
{
    match try_spec_step(inp, builtin, ctx, c) {
        Step::Done(None, c1) => {
            if let Some(b) = builtin {
                law_from_spec_restores_position(inp, b, ctx, c);
            }
            assert(c1.pos == c.pos);
            if let Some(f) = file {
                lemma_from_spec_indep(inp, f, ctx, c1, c);
                law_from_spec_restores_position(inp, f, ctx, c1);
            }
            match try_spec_step(inp, file, ctx, c1) {
                Step::Done(None, c2) => {
                    assert(c2.pos == c.pos);
                    if let Step::Done(d, c3) = unknown_start_step(inp, ctx, c2) {
                        assert(unknown_start_step(inp, ctx, c2) == Step::Done(d, c3));
                    }
                },
                _ => {},
            }
        },
        _ => {},
    }
}

/// The built-in specification comes first: where it reads the block, that
/// reading is the result of `parse_ifdata`, with the flag set and the cursor
/// where that reading left it, whatever the file's specification would give.
pub proof fn law_builtin_spec_first(
    inp: Input,
    builtin: A2mlTypeSpec,
    file: Option<A2mlTypeSpec>,
    ctx: ContextV,
    c: Cursor,
)
    requires
        inp.peek(c) matches Some(t) && t.ttype != A2lTokenType::End,
    ensures
        from_spec_step(inp, builtin, ctx, c) matches Step::Done(Some(d), c1) ==> ifdata_step(
            inp,
            Some(builtin),
            file,
            ctx,
            c,
        ) == Step::Done((Some(d), true), c1),
{
}

/// The file's specification decides the data only where the built-in one is
/// absent or does not read the block; its reading then starts where the
/// block starts.
pub proof fn law_file_spec_second(
    inp: Input,
    builtin: Option<A2mlTypeSpec>,
    file: Option<A2mlTypeSpec>,
    ctx: ContextV,
    c: Cursor,
)
    requires
        inp.peek(c) matches Some(t) && t.ttype != A2lTokenType::End,
        builtin matches Some(b) ==> from_spec_step(inp, b, ctx, c) matches Step::Done(None, _),
    ensures
        ifdata_step(inp, builtin, file, ctx, c) matches Step::Done((Some(d), true), c3) ==> (file matches Some(
            f,
        ) && exists|c1: Cursor|
            c1.pos == c.pos && #[trigger] from_spec_step(inp, f, ctx, c1) == Step::Done(
                Some(d),
                c3,
            )),
{
    if let Some(b) = builtin {
        law_from_spec_restores_position(inp, b, ctx, c);
    }
    match try_spec_step(inp, builtin, ctx, c) {
        Step::Done(None, c1) => {
            if let Some(f) = file {
                assert(c1.pos == c.pos);
                if let Step::Done(Some(d), c3) = from_spec_step(inp, f, ctx, c1) {
                    assert(from_spec_step(inp, f, ctx, c1) == Step::Done(Some(d), c3));
                }
            }
        },
        _ => {},
    }
}

/// Reading an integer type of A2ML: the result where the next token is a
/// number. An integer literal whose value lies in `lo..=hi` (negative ones
/// allowed where `signed`) is read as that value (`val` gives it back from
/// the data) and the number is consumed; any other number is malformed.
pub open spec fn reads_integer(
    st: Step<IfDataV>,
    ctx: ContextV,
    s: Seq<char>,
    signed: bool,
    lo: int,
    hi: int,
    c: Cursor,
    val: spec_fn(IfDataV) -> Option<int>,
) -> bool {
    if int_text_value(s, signed) matches Some(v) && lo <= v && v <= hi {
        st matches Step::Done(d, c2) && val(d) == int_text_value(s, signed) && c2.pos == c.pos + 1
    } else {
        st matches Step::Fail(e, c2) && e == ErrorV::MalformedNumber(ctx, s) && c2.pos == c.pos + 1
    }
}

/// The integer types of A2ML are read over the whole value range of the
/// matching machine type: char, int, long and int64 as signed 8, 16, 32 and
/// 64 bit integers, uchar, uint, ulong and uint64 as unsigned ones; only
/// numbers outside that range, or that are no integer literal, are malformed.
pub proof fn law_integer_items(inp: Input, ctx: ContextV, c: Cursor)
    requires
        inp.peek(c) matches Some(t) && t.ttype == A2lTokenType::Number,
    ensures
        ({
            let s = inp.peek(c)->0.text@;
            &&& reads_integer(
                item_step(inp, A2mlTypeSpec::Char, ctx, c),
                ctx,
                s,
                true,
                i8::MIN as int,
                i8::MAX as int,
                c,
                |d: IfDataV|
                    match d {
                        IfDataV::Char(_, x) => Some(x as int),
                        _ => None,
                    },
            )
            &&& reads_integer(
                item_step(inp, A2mlTypeSpec::Int, ctx, c),
                ctx,
                s,
                true,
                i16::MIN as int,
                i16::MAX as int,
                c,
                |d: IfDataV|
                    match d {
                        IfDataV::Int(_, x) => Some(x as int),
                        _ => None,
                    },
            )
            &&& reads_integer(
                item_step(inp, A2mlTypeSpec::Long, ctx, c),
                ctx,
                s,
                true,
                i32::MIN as int,
                i32::MAX as int,
                c,
                |d: IfDataV|
                    match d {
                        IfDataV::Long(_, x) => Some(x as int),
                        _ => None,
                    },
            )
            &&& reads_integer(
                item_step(inp, A2mlTypeSpec::Int64, ctx, c),
                ctx,
                s,
                true,
                i64::MIN as int,
                i64::MAX as int,
                c,
                |d: IfDataV|
                    match d {
                        IfDataV::Int64(_, x) => Some(x as int),
                        _ => None,
                    },
            )
            &&& reads_integer(
                item_step(inp, A2mlTypeSpec::UChar, ctx, c),
                ctx,
                s,
                false,
                0,
                u8::MAX as int,
                c,
                |d: IfDataV|
                    match d {
                        IfDataV::UChar(_, x) => Some(x as int),
                        _ => None,
                    },
            )
            &&& reads_integer(
                item_step(inp, A2mlTypeSpec::UInt, ctx, c),
                ctx,
                s,
                false,
                0,
                u16::MAX as int,
                c,
                |d: IfDataV|
                    match d {
                        IfDataV::UInt(_, x) => Some(x as int),
                        _ => None,
                    },
            )
            &&& reads_integer(
                item_step(inp, A2mlTypeSpec::ULong, ctx, c),
                ctx,
                s,
                false,
                0,
                u32::MAX as int,
                c,
                |d: IfDataV|
                    match d {
                        IfDataV::ULong(_, x) => Some(x as int),
                        _ => None,
                    },
            )
            &&& reads_integer(
                item_step(inp, A2mlTypeSpec::UInt64, ctx, c),
                ctx,
                s,
                false,
                0,
                u64::MAX as int,
                c,
                |d: IfDataV|
                    match d {
                        IfDataV::UInt64(_, x) => Some(x as int),
                        _ => None,
                    },
            )
        }),
{
}

/// The id that follows `id`; ids wrap around after `u32::MAX`.
pub open spec fn next_id_after(id: int) -> int {
    (id + 1) % 0x1_0000_0000
}

/// Each tagged item read according to a specification carries a fresh id:
/// the one that follows the last id handed out before it.
pub proof fn law_tagged_item_fresh_id(inp: Input, v: Vec<A2mlTaggedTypeSpec>, ctx: ContextV, c: Cursor)
    ensures
        taggeditem_step(inp, v, ctx, c) matches Step::Done(Some(item), _) ==> item.uid as int
            == next_id_after(c.next_id as int),
{
}

/// A type whose data holds no tagged items hands out no ids.
pub open spec fn id_free(s: A2mlTypeSpec) -> bool
    decreases s,
{
    match s {
        A2mlTypeSpec::Array(t, _) => id_free(*t),
        A2mlTypeSpec::Struct(v) => forall|i: int| 0 <= i < v.len() ==> id_free(#[trigger] v@[i]),
        A2mlTypeSpec::Sequence(e) => id_free(*e),
        A2mlTypeSpec::TaggedStruct(_) => false,
        A2mlTypeSpec::TaggedUnion(_) => false,
        _ => true,
    }
}

proof fn lemma_id_free_item(inp: Input, spec: A2mlTypeSpec, ctx: ContextV, c: Cursor)
    requires
        id_free(spec),
    ensures
        item_step(inp, spec, ctx, c) matches Step::Done(_, c2) ==> c2.next_id == c.next_id,
        item_step(inp, spec, ctx, c) matches Step::Fail(_, c2) ==> c2.next_id == c.next_id,
    decreases spec, 1int, 0int,
{
    match spec {
        A2mlTypeSpec::Array(t, dim) => {
            match *t {
                A2mlTypeSpec::Char => {},
                _ => {
                    lemma_id_free_array(inp, *t, dim as int, ctx, c, seq![]);
                },
            }
        },
        A2mlTypeSpec::Struct(v) => {
            lemma_id_free_struct(inp, v, 0, ctx, c, seq![]);
        },
        A2mlTypeSpec::Sequence(e) => {
            lemma_id_free_seq(inp, *e, ctx, c, seq![]);
        },
        _ => {},
    }
}

proof fn lemma_id_free_array(
    inp: Input,
    elem: A2mlTypeSpec,
    n: int,
    ctx: ContextV,
    c: Cursor,
    acc: Seq<IfDataV>,
)
    requires
        id_free(elem),
    ensures
        array_step(inp, elem, n, ctx, c, acc) matches Step::Done(_, c2) ==> c2.next_id == c.next_id,
        array_step(inp, elem, n, ctx, c, acc) matches Step::Fail(_, c2) ==> c2.next_id == c.next_id,
    decreases elem, 2int, n,
{
    if n > 0 {
        lemma_id_free_item(inp, elem, ctx, c);
        if let Step::Done(v, d) = item_step(inp, elem, ctx, c) {
            lemma_id_free_array(inp, elem, n - 1, ctx, d, acc.push(v));
        }
    }
}

proof fn lemma_id_free_struct(
    inp: Input,
    v: Vec<A2mlTypeSpec>,
    i: int,
    ctx: ContextV,
    c: Cursor,
    acc: Seq<IfDataV>,
)
    requires
        forall|k: int| 0 <= k < v.len() ==> id_free(#[trigger] v@[k]),
    ensures
        struct_step(inp, v, i, ctx, c, acc) matches Step::Done(_, c2) ==> c2.next_id == c.next_id,
        struct_step(inp, v, i, ctx, c, acc) matches Step::Fail(_, c2) ==> c2.next_id == c.next_id,
    decreases v, 2int, v.len() - i,
{
    if 0 <= i < v.len() {
        lemma_id_free_item(inp, v@[i], ctx, c);
        if let Step::Done(x, d) = item_step(inp, v@[i], ctx, c) {
            lemma_id_free_struct(inp, v, i + 1, ctx, d, acc.push(x));
        }
    }
}

proof fn lemma_id_free_seq(inp: Input, elem: A2mlTypeSpec, ctx: ContextV, c: Cursor, acc: Seq<IfDataV>)
    requires
        id_free(elem),
    ensures
        seq_step(inp, elem, ctx, c, acc) matches Step::Done(_, c2) ==> c2.next_id == c.next_id,
        seq_step(inp, elem, ctx, c, acc) matches Step::Fail(_, c2) ==> c2.next_id == c.next_id,
    decreases elem, 2int, inp.toks.len() - c.pos,
{
    lemma_id_free_item(inp, elem, ctx, c);
    if let Step::Done(v, d) = item_step(inp, elem, ctx, c) {
        if c.pos < d.pos <= inp.toks.len() {
            lemma_id_free_seq(inp, elem, ctx, d, acc.push(v));
        }
    }
}

proof fn lemma_ids_of_taggedstruct(
    inp: Input,
    v: Vec<A2mlTaggedTypeSpec>,
    ctx: ContextV,
    c0: Cursor,
    c: Cursor,
    acc: Seq<TaggedItemV>,
)
    requires
        forall|k: int| 0 <= k < v.len() ==> id_free((#[trigger] v@[k]).item),
        0 <= c0.next_id,
        c.next_id as int == (c0.next_id + acc.len()) % 0x1_0000_0000,
        forall|j: int|
            0 <= j < acc.len() ==> (#[trigger] acc[j]).uid as int == (c0.next_id + j + 1)
                % 0x1_0000_0000,
    ensures
        taggedstruct_step(inp, v, ctx, c, acc) matches Step::Done(items, c2) ==> {
            &&& forall|j: int|
                0 <= j < items.len() ==> (#[trigger] items[j]).uid as int == (c0.next_id + j + 1)
                    % 0x1_0000_0000
            &&& c2.next_id as int == (c0.next_id + items.len()) % 0x1_0000_0000
        },
    decreases inp.toks.len() - c.pos,
{
    let (tagres, c1) = inp.next_tag(ctx, c);
    if let Some((tok, is_block, _)) = tagres {
        if let Some(k) = crate::ifdata_spec::find_tagged(v, tok.text@) {
            if 0 <= k < v.len() && v@[k].is_block == is_block {
                let c2 = crate::parser::bump_id(c1);
                let nctx = crate::parser::context_from_token(tok.text@, tok, is_block);
                assert(id_free(v@[k].item));
                lemma_id_free_item(inp, v@[k].item, nctx, c2);
                assert(c2.next_id as int == (c0.next_id + acc.len() + 1) % 0x1_0000_0000) by {
                    let n = c0.next_id + acc.len();
                    assert(n >= 0);
                    assert((n % 0x1_0000_0000 + 1) % 0x1_0000_0000 == (n + 1) % 0x1_0000_0000) by (
                    nonlinear_arith)
                        requires
                            n >= 0,
                    ;
                }
            }
        }
    }
    match taggeditem_step(inp, v, ctx, c) {
        Step::Done(Some(item), d) => {
            if c.pos < d.pos <= inp.toks.len() {
                assert forall|j: int| 0 <= j < acc.push(item).len() implies (#[trigger] acc.push(
                    item,
                )[j]).uid as int == (c0.next_id + j + 1) % 0x1_0000_0000 by {
                    if j < acc.len() {
                        assert(acc.push(item)[j] == acc[j]);
                    }
                }
                lemma_ids_of_taggedstruct(inp, v, ctx, c0, d, acc.push(item));
            }
        },
        _ => {},
    }
}

/// The tagged items of a tagged struct whose contents hold no tagged items
/// get consecutive ids, starting after the last id handed out before; after
/// reading them, the last id handed out is the one of the last item. So no
/// two of them share an id (fewer than 2^32 items).
pub proof fn law_taggedstruct_ids(inp: Input, v: Vec<A2mlTaggedTypeSpec>, ctx: ContextV, c: Cursor)
    requires
        forall|k: int| 0 <= k < v.len() ==> id_free((#[trigger] v@[k]).item),
    ensures
        taggedstruct_step(inp, v, ctx, c, seq![]) matches Step::Done(items, c2) ==> {
            &&& forall|j: int|
                0 <= j < items.len() ==> (#[trigger] items[j]).uid as int == (c.next_id + j + 1)
                    % 0x1_0000_0000
            &&& c2.next_id as int == (c.next_id + items.len()) % 0x1_0000_0000
        },
{
    assert(c.next_id as int == (c.next_id + 0) % 0x1_0000_0000);
    lemma_ids_of_taggedstruct(inp, v, ctx, c, c, seq![]);
}

} // verus!
