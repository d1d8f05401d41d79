//! Parsing of IF_DATA blocks: according to an A2ML specification where one
//! fits, else generically, so that the data is kept in any case.
use vstd::prelude::*;

use crate::a2ml::{
    ifdata_list_view, make_block_view, opt_string_view, tagged_list_view, A2mlTaggedTypeSpec,
    A2mlTypeSpec, GenericIfData, GenericIfDataTaggedItem, IfDataV, TaggedItemV,
};
use crate::ifdata_spec::{
    enum_has, find_tagged, find_tagged_from, from_spec_step, ifdata_step, item_step,
    taggeditem_step, taggedstruct_step, unknown_loop, unknown_start_step, unknown_step,
    unknown_taggedstruct_step, unknown_ts_loop,
};
use crate::parser::{Cursor, ParseContext, ParseError, ParserState, Step};
use crate::structure::{
    law_sane_ifdata_generic_reads_to_end, law_sane_ifdata_is_read, law_unknown_reads_sane_content,
    law_unknown_start_reads_sane_content, sane_up_to_end, skip_content,
};
use crate::ifdata_laws::{law_tagged_item_fresh_id, next_id_after};
use crate::tokens::A2lTokenType;
use crate::wellformed::{
    lemma_unknown_taggedstruct_terminates, lemma_unknown_terminates, law_unknown_start_terminates,
    names_unique, opt_names_unique, tagged_names_unique,
};

verus! {

/// The result agrees with the step: the same value or error, and the cursor
/// where the step leaves it.
pub open spec fn data_agrees(r: Result<GenericIfData, ParseError>, s: Step<IfDataV>, c: Cursor) -> bool {
    match s {
        Step::Done(v, c2) => r matches Ok(x) && x@ == v && c == c2,
        Step::Fail(e, c2) => r matches Err(x) && x@ == e && c == c2,
        Step::Diverge => false,
    }
}

pub open spec fn opt_item_view(o: Option<GenericIfDataTaggedItem>) -> Option<TaggedItemV> {
    match o {
        Some(t) => Some(t@),
        None => None,
    }
}

pub open spec fn opt_data_view(o: Option<GenericIfData>) -> Option<IfDataV> {
    match o {
        Some(d) => Some(d@),
        None => None,
    }
}

pub open spec fn item_agrees(
    r: Result<Option<GenericIfDataTaggedItem>, ParseError>,
    s: Step<Option<TaggedItemV>>,
    c: Cursor,
) -> bool {
    match s {
        Step::Done(v, c2) => r matches Ok(x) && opt_item_view(x) == v && c == c2,
        Step::Fail(e, c2) => r matches Err(x) && x@ == e && c == c2,
        Step::Diverge => false,
    }
}

pub open spec fn items_agrees(
    r: Result<Vec<GenericIfDataTaggedItem>, ParseError>,
    s: Step<Seq<TaggedItemV>>,
    c: Cursor,
) -> bool {
    match s {
        Step::Done(v, c2) => r matches Ok(x) && tagged_list_view(x) == v && c == c2,
        Step::Fail(e, c2) => r matches Err(x) && x@ == e && c == c2,
        Step::Diverge => false,
    }
}

proof fn lemma_push_data(v1: Vec<GenericIfData>, v2: Vec<GenericIfData>, x: GenericIfData)
    requires
        v2@ == v1@.push(x),
    ensures
        ifdata_list_view(v2) == ifdata_list_view(v1).push(x@),
{
    assert(ifdata_list_view(v2) =~= ifdata_list_view(v1).push(x@));
}

proof fn lemma_push_item(v1: Vec<GenericIfDataTaggedItem>, v2: Vec<GenericIfDataTaggedItem>, x: GenericIfDataTaggedItem)
    requires
        v2@ == v1@.push(x),
    ensures
        tagged_list_view(v2) == tagged_list_view(v1).push(x@),
{
    assert(tagged_list_view(v2) =~= tagged_list_view(v1).push(x@));
}

/// Whether `name` is an enumerator of the enumeration.
fn enum_contains(enumspec: &Vec<(String, Option<i32>)>, name: &String) -> (r: bool)
    ensures
        r == enum_has(*enumspec, name@),
{
    let mut i: usize = 0;
    while i < enumspec.len()
        invariant
            i <= enumspec.len(),
            forall|k: int| 0 <= k < i ==> (#[trigger] enumspec@[k]).0@ != name@,
        decreases enumspec.len() - i,
    {
        if enumspec[i].0 == *name {
            return true;
        }
        i = i + 1;
    }
    false
}

/// The position of the tagged item spec with the given tag.
fn find_tagged_spec(spec: &Vec<A2mlTaggedTypeSpec>, tag: &String) -> (r: Option<usize>)
    ensures
        r matches Some(k) ==> find_tagged(*spec, tag@) == Some(k as int) && k < spec.len(),
        r is None ==> find_tagged(*spec, tag@) is None,
{
    let mut i: usize = 0;
    while i < spec.len()
        invariant
            i <= spec.len(),
            find_tagged(*spec, tag@) == find_tagged_from(*spec, tag@, i as int),
        decreases spec.len() - i,
    {
        if spec[i].tag == *tag {
            return Some(i);
        }
        i = i + 1;
    }
    None
}

/// Turns the data of a tagged item into a block: a struct gives its items,
/// anything else becomes the block's single item.
pub fn parse_ifdata_make_block(data: GenericIfData, incfile: Option<String>, line: u32) -> (r:
    GenericIfData)
    ensures
        r@ == make_block_view(data@, opt_string_view(incfile), line),
{
    match data {
        GenericIfData::Struct(_, _, structitems) => GenericIfData::Block {
            incfile,
            line,
            items: structitems,
        },
        other => {
            let items = vec![other];
            assert(ifdata_list_view(items) =~= seq![other@]);
            GenericIfData::Block { incfile, line, items }
        },
    }
}


/// Reads one item, with all that it holds, according to an A2ML type.
pub fn parse_ifdata_item(parser: &mut ParserState, context: &ParseContext, spec: &A2mlTypeSpec) -> (r:
    Result<GenericIfData, ParseError>)
    requires
        old(parser).wf(),
        item_step(old(parser).input(), *spec, context@, old(parser).cursor()) !is Diverge,
        names_unique(*spec),
    ensures
        final(parser).wf(),
        final(parser).same_input(*old(parser)),
        data_agrees(
            r,
            item_step(old(parser).input(), *spec, context@, old(parser).cursor()),
            final(parser).cursor(),
        ),
    decreases spec, 1int, 0int,
{
    let ghost inp = parser.input();
    let ghost c0 = parser.cursor();
    let ghost ctx = context@;
    match spec {
        A2mlTypeSpec::Empty => Ok(GenericIfData::Empty),
        A2mlTypeSpec::Char => {
            let off = parser.get_current_line_offset();
            let v = parser.get_integer(context, -128, 127)?;
            Ok(GenericIfData::Char(off, v as i8))
        },
        A2mlTypeSpec::Int => {
            let off = parser.get_current_line_offset();
            let v = parser.get_integer(context, -32768, 32767)?;
            Ok(GenericIfData::Int(off, v as i16))
        },
        A2mlTypeSpec::Long => {
            let off = parser.get_current_line_offset();
            let v = parser.get_integer(context, -2147483648, 2147483647)?;
            Ok(GenericIfData::Long(off, v as i32))
        },
        A2mlTypeSpec::Int64 => {
            let off = parser.get_current_line_offset();
            let v = parser.get_integer(context, -9223372036854775808, 9223372036854775807)?;
            Ok(GenericIfData::Int64(off, v as i64))
        },
        A2mlTypeSpec::UChar => {
            let off = parser.get_current_line_offset();
            let v = parser.get_integer(context, 0, 255)?;
            Ok(GenericIfData::UChar(off, v as u8))
        },
        A2mlTypeSpec::UInt => {
            let off = parser.get_current_line_offset();
            let v = parser.get_integer(context, 0, 65535)?;
            Ok(GenericIfData::UInt(off, v as u16))
        },
        A2mlTypeSpec::ULong => {
            let off = parser.get_current_line_offset();
            let v = parser.get_integer(context, 0, 4294967295)?;
            Ok(GenericIfData::ULong(off, v as u32))
        },
        A2mlTypeSpec::UInt64 => {
            let off = parser.get_current_line_offset();
            let v = parser.get_integer(context, 0, 18446744073709551615)?;
            Ok(GenericIfData::UInt64(off, v as u64))
        },
        A2mlTypeSpec::Float => {
            let off = parser.get_current_line_offset();
            let v = parser.get_float(context)?;
            Ok(GenericIfData::Float(off, v))
        },
        A2mlTypeSpec::Double => {
            let off = parser.get_current_line_offset();
            let v = parser.get_float(context)?;
            Ok(GenericIfData::Double(off, v))
        },
        A2mlTypeSpec::Array(arraytype, dim) => {
            if let A2mlTypeSpec::Char = **arraytype {
                let off = parser.get_current_line_offset();
                let v = parser.get_string_maxlen(context, *dim)?;
                Ok(GenericIfData::String(off, v))
            } else {
                let ghost elem = **arraytype;
                let ghost full = crate::ifdata_spec::array_step(inp, elem, *dim as int, ctx, c0, seq![]);
                let mut arrayitems: Vec<GenericIfData> = Vec::new();
                assert(ifdata_list_view(arrayitems) =~= Seq::<IfDataV>::empty());
                let mut k: usize = 0;
                while k < *dim
                    invariant
                        parser.wf(),
                        parser.same_input(*old(parser)),
                        inp == old(parser).input(),
                        c0 == old(parser).cursor(),
                        parser.input() == inp,
                        ctx == context@,
                        names_unique(*spec),
                        k <= *dim,
                        *spec == A2mlTypeSpec::Array(*arraytype, *dim),
                        elem == **arraytype,
                        !(elem is Char),
                        full == crate::ifdata_spec::array_step(inp, elem, *dim as int, ctx, c0, seq![]),
                        full !is Diverge,
                        full == crate::ifdata_spec::array_step(
                            inp,
                            elem,
                            *dim - k,
                            ctx,
                            parser.cursor(),
                            ifdata_list_view(arrayitems),
                        ),
                    decreases *dim - k,
                {
                    let ghost before = arrayitems;
                    proof {
                        assert(decreases_to!(*spec => (*spec)->Array_0));
                    }
                    let item = parse_ifdata_item(parser, context, arraytype)?;
                    arrayitems.push(item);
                    proof {
                        lemma_push_data(before, arrayitems, item);
                    }
                    k = k + 1;
                }
                Ok(GenericIfData::Array(arrayitems))
            }
        },
        A2mlTypeSpec::Enum(enumspec) => {
            let pos = parser.get_current_line_offset();
            let enumitem = parser.get_identifier(context)?;
            if enum_contains(enumspec, &enumitem) {
                Ok(GenericIfData::EnumItem(pos, enumitem))
            } else {
                Err(ParseError::InvalidEnumValue(context.duplicate(), enumitem))
            }
        },
        A2mlTypeSpec::Struct(structspec) => {
            let ghost full = crate::ifdata_spec::struct_step(inp, *structspec, 0, ctx, c0, seq![]);
            let mut structitems: Vec<GenericIfData> = Vec::new();
            assert(ifdata_list_view(structitems) =~= Seq::<IfDataV>::empty());
            let line = parser.get_current_line_offset();
            let mut i: usize = 0;
            while i < structspec.len()
                invariant
                    parser.wf(),
                    parser.same_input(*old(parser)),
                    inp == old(parser).input(),
                    c0 == old(parser).cursor(),
                    parser.input() == inp,
                        ctx == context@,
                        names_unique(*spec),
                    i <= structspec.len(),
                    *spec == A2mlTypeSpec::Struct(*structspec),
                    full == crate::ifdata_spec::struct_step(inp, *structspec, 0, ctx, c0, seq![]),
                    full !is Diverge,
                    full == crate::ifdata_spec::struct_step(
                        inp,
                        *structspec,
                        i as int,
                        ctx,
                        parser.cursor(),
                        ifdata_list_view(structitems),
                    ),
                decreases structspec.len() - i,
            {
                proof {
                    assert(decreases_to!(*spec => (*spec)->Struct_0));
                    assert(decreases_to!((*spec)->Struct_0 => (*spec)->Struct_0@));
                    assert(decreases_to!((*spec)->Struct_0@ => (*spec)->Struct_0@[i as int]));
                }
                let ghost before = structitems;
                let item = parse_ifdata_item(parser, context, &structspec[i])?;
                structitems.push(item);
                proof {
                    lemma_push_data(before, structitems, item);
                }
                i = i + 1;
            }
            Ok(GenericIfData::Struct(parser.get_incfilename(context.fileid), line, structitems))
        },
        A2mlTypeSpec::Sequence(seqspec) => {
            let ghost elem = **seqspec;
            let ghost full = crate::ifdata_spec::seq_step(inp, elem, ctx, c0, seq![]);
            let mut seqitems: Vec<GenericIfData> = Vec::new();
            assert(ifdata_list_view(seqitems) =~= Seq::<IfDataV>::empty());
            let mut checkpoint = parser.get_tokenpos();
            loop
                invariant_except_break
                    checkpoint == parser.token_cursor,
                    full == crate::ifdata_spec::seq_step(
                        inp,
                        elem,
                        ctx,
                        parser.cursor(),
                        ifdata_list_view(seqitems),
                    ),
                invariant
                    parser.wf(),
                    parser.same_input(*old(parser)),
                    inp == old(parser).input(),
                    c0 == old(parser).cursor(),
                    parser.input() == inp,
                        ctx == context@,
                        names_unique(*spec),
                    checkpoint <= inp.toks.len(),
                    *spec == A2mlTypeSpec::Sequence(*seqspec),
                    elem == **seqspec,
                    full == crate::ifdata_spec::seq_step(inp, elem, ctx, c0, seq![]),
                    full !is Diverge,
                ensures
                    full == Step::Done(
                        ifdata_list_view(seqitems),
                        crate::parser::with_pos(parser.cursor(), checkpoint as int),
                    ),
                decreases inp.toks.len() - parser.token_cursor,
            {
                let ghost before = seqitems;
                proof {
                    assert(decreases_to!(*spec => (*spec)->Sequence_0));
                }
                match parse_ifdata_item(parser, context, seqspec) {
                    Ok(item) => {
                        seqitems.push(item);
                        proof {
                            lemma_push_data(before, seqitems, item);
                        }
                        checkpoint = parser.get_tokenpos();
                    },
                    Err(_) => {
                        break ;
                    },
                }
            }
            parser.set_tokenpos(checkpoint);
            Ok(GenericIfData::Sequence(seqitems))
        },
        A2mlTypeSpec::TaggedStruct(tsspec) => {
            let items = parse_ifdata_taggedstruct(parser, context, tsspec)?;
            Ok(GenericIfData::TaggedStruct(items))
        },
        A2mlTypeSpec::TaggedUnion(tuspec) => {
            let mut result: Vec<GenericIfDataTaggedItem> = Vec::new();
            if let Some(taggeditem) = parse_ifdata_taggeditem(parser, context, tuspec)? {
                result.push(taggeditem);
                assert(tagged_list_view(result) =~= seq![taggeditem@]);
            } else {
                assert(tagged_list_view(result) =~= Seq::<TaggedItemV>::empty());
            }
            Ok(GenericIfData::TaggedUnion(result))
        },
    }
}

/// Reads all the tagged items of a tagged struct, in order.
pub fn parse_ifdata_taggedstruct(
    parser: &mut ParserState,
    context: &ParseContext,
    tsspec: &Vec<A2mlTaggedTypeSpec>,
) -> (r: Result<Vec<GenericIfDataTaggedItem>, ParseError>)
    requires
        old(parser).wf(),
        taggedstruct_step(old(parser).input(), *tsspec, context@, old(parser).cursor(), seq![])
            !is Diverge,
        tagged_names_unique(*tsspec),
    ensures
        final(parser).wf(),
        final(parser).same_input(*old(parser)),
        items_agrees(
            r,
            taggedstruct_step(old(parser).input(), *tsspec, context@, old(parser).cursor(), seq![]),
            final(parser).cursor(),
        ),
    decreases tsspec, 3int, 0int,
{
    let ghost inp = parser.input();
    let ghost c0 = parser.cursor();
    let ghost ctx = context@;
    let ghost full = taggedstruct_step(inp, *tsspec, ctx, c0, seq![]);
    let mut result: Vec<GenericIfDataTaggedItem> = Vec::new();
    assert(tagged_list_view(result) =~= Seq::<TaggedItemV>::empty());
    loop
        invariant_except_break
            full == taggedstruct_step(inp, *tsspec, ctx, parser.cursor(), tagged_list_view(result)),
        invariant
            parser.wf(),
            parser.same_input(*old(parser)),
            inp == old(parser).input(),
            c0 == old(parser).cursor(),
            parser.input() == inp,
                        ctx == context@,
                        tagged_names_unique(*tsspec),
            full == taggedstruct_step(inp, *tsspec, ctx, c0, seq![]),
            full !is Diverge,
        ensures
            full == Step::Done(tagged_list_view(result), parser.cursor()),
        decreases inp.toks.len() - parser.token_cursor,
    {
        let ghost before = result;
        match parse_ifdata_taggeditem(parser, context, tsspec)? {
            Some(taggeditem) => {
                result.push(taggeditem);
                proof {
                    lemma_push_item(before, result, taggeditem);
                }
            },
            None => {
                break ;
            },
        }
    }
    Ok(result)
}

/// Reads a tagged item of a tagged struct or tagged union, if one of its tags
/// comes next: `Ok(None)` where none does (the position is then restored),
/// an error where the file is broken inside the item.
pub fn parse_ifdata_taggeditem(
    parser: &mut ParserState,
    context: &ParseContext,
    spec: &Vec<A2mlTaggedTypeSpec>,
) -> (r: Result<Option<GenericIfDataTaggedItem>, ParseError>)
    requires
        old(parser).wf(),
        taggeditem_step(old(parser).input(), *spec, context@, old(parser).cursor()) !is Diverge,
        tagged_names_unique(*spec),
    ensures
        final(parser).wf(),
        final(parser).same_input(*old(parser)),
        item_agrees(
            r,
            taggeditem_step(old(parser).input(), *spec, context@, old(parser).cursor()),
            final(parser).cursor(),
        ),
        r matches Ok(Some(item)) ==> item.uid as int == next_id_after(old(parser).sequential_id as int),
    decreases spec, 2int, 0int,
{
    proof {
        law_tagged_item_fresh_id(parser.input(), *spec, context@, parser.cursor());
    }
    let checkpoint = parser.get_tokenpos();
    if let Some((token, is_block, start_offset)) = parser.get_next_tag(context) {
        let tag = token.text.clone();
        if let Some(k) = find_tagged_spec(spec, &tag) {
            let taggedspec = &spec[k];
            if taggedspec.is_block != is_block {
                parser.set_tokenpos(checkpoint);
                return Ok(None);
            }
            let uid = parser.get_next_id();
            let newcontext = ParseContext::from_token(&tag, &token, is_block);
            proof {
                assert(decreases_to!(*spec => spec@));
                assert(decreases_to!(spec@ => spec@[k as int]));
                assert(decreases_to!(spec@[k as int] => spec@[k as int].item));
            }
            let data = parse_ifdata_item(parser, &newcontext, &taggedspec.item)?;
            let parsed_item = parse_ifdata_make_block(
                data,
                parser.get_incfilename(newcontext.fileid),
                newcontext.line,
            );
            let end_offset = parser.get_current_line_offset();
            if is_block {
                parser.expect_token(&newcontext, A2lTokenType::End)?;
                let endtag = parser.get_identifier(&newcontext)?;
                if !(endtag == tag) {
                    return Err(ParseError::IncorrectEndTag(newcontext, endtag));
                }
            }
            Ok(
                Some(
                    GenericIfDataTaggedItem {
                        incfile: parser.get_incfilename(newcontext.fileid),
                        line: newcontext.line,
                        uid,
                        start_offset,
                        end_offset,
                        tag,
                        data: parsed_item,
                        is_block,
                    },
                ),
            )
        } else {
            parser.set_tokenpos(checkpoint);
            Ok(None)
        }
    } else {
        parser.set_tokenpos(checkpoint);
        Ok(None)
    }
}


pub open spec fn opt_data_agrees(r: Option<GenericIfData>, s: Step<Option<IfDataV>>, c: Cursor) -> bool {
    match s {
        Step::Done(v, c2) => opt_data_view(r) == v && c == c2,
        _ => false,
    }
}

/// Reads the items of an IF_DATA block according to an A2ML type. Where that
/// fails, or does not read the block up to its `/end`, the position is set
/// back to the start of the block so that it can be read another way.
pub fn parse_ifdata_from_spec(parser: &mut ParserState, context: &ParseContext, spec: &A2mlTypeSpec) -> (r:
    Option<GenericIfData>)
    requires
        old(parser).wf(),
        from_spec_step(old(parser).input(), *spec, context@, old(parser).cursor()) !is Diverge,
        names_unique(*spec),
    ensures
        final(parser).wf(),
        final(parser).same_input(*old(parser)),
        opt_data_agrees(
            r,
            from_spec_step(old(parser).input(), *spec, context@, old(parser).cursor()),
            final(parser).cursor(),
        ),
{
    let pos = parser.get_tokenpos();
    match parse_ifdata_item(parser, context, spec) {
        Ok(ifdata) => {
            if let Some(A2lTokenType::End) = parser.peek_type() {
                let incfile = parser.get_incfilename(context.fileid);
                Some(parse_ifdata_make_block(ifdata, incfile, context.line))
            } else {
                parser.set_tokenpos(pos);
                None
            }
        },
        Err(_) => {
            parser.set_tokenpos(pos);
            None
        },
    }
}

pub open spec fn ifdata_agrees(
    r: Result<(Option<GenericIfData>, bool), ParseError>,
    s: Step<(Option<IfDataV>, bool)>,
    c: Cursor,
) -> bool {
    match s {
        Step::Done(v, c2) => r matches Ok(x) && opt_data_view(x.0) == v.0 && x.1 == v.1 && c == c2,
        Step::Fail(e, c2) => r matches Err(x) && x@ == e && c == c2,
        Step::Diverge => false,
    }
}

/// Reads an IF_DATA block. Up to three attempts are made: according to the
/// built-in A2ML specification, according to the specification in the file,
/// and generically. The flag says whether a specification fitted; the
/// generic reading fails only where the block is structurally broken.
pub fn parse_ifdata(parser: &mut ParserState, context: &ParseContext) -> (r: Result<
    (Option<GenericIfData>, bool),
    ParseError,
>)
    requires
        old(parser).wf(),
        ifdata_step(
            old(parser).input(),
            old(parser).builtin_a2mlspec,
            old(parser).file_a2mlspec,
            context@,
            old(parser).cursor(),
        ) !is Diverge,
        opt_names_unique(old(parser).builtin_a2mlspec),
        opt_names_unique(old(parser).file_a2mlspec),
    ensures
        final(parser).wf(),
        final(parser).same_input(*old(parser)),
        ifdata_agrees(
            r,
            ifdata_step(
                old(parser).input(),
                old(parser).builtin_a2mlspec,
                old(parser).file_a2mlspec,
                context@,
                old(parser).cursor(),
            ),
            final(parser).cursor(),
        ),
        sane_up_to_end(old(parser).tokens@, old(parser).token_cursor as int) ==> r is Ok,
        sane_up_to_end(old(parser).tokens@, old(parser).token_cursor as int) && (r matches Ok(
            x,
        ) && x.0 is Some && !x.1) ==> final(parser).token_cursor == skip_content(
            old(parser).tokens@,
            old(parser).token_cursor as int,
        ),
{
    proof {
        if sane_up_to_end(parser.tokens@, parser.token_cursor as int) {
            law_sane_ifdata_is_read(
                parser.input(),
                parser.builtin_a2mlspec,
                parser.file_a2mlspec,
                context@,
                parser.cursor(),
            );
            law_sane_ifdata_generic_reads_to_end(
                parser.input(),
                parser.builtin_a2mlspec,
                parser.file_a2mlspec,
                context@,
                parser.cursor(),
            );
        }
    }
    let mut result: Option<GenericIfData> = None;
    let mut valid = false;
    if let Some(ttype) = parser.peek_type() {
        if ttype != A2lTokenType::End {
            let spec = parser.builtin_a2mlspec.take();
            if let Some(a2mlspec) = &spec {
                if let Some(ifdata_items) = parse_ifdata_from_spec(parser, context, a2mlspec) {
                    result = Some(ifdata_items);
                    valid = true;
                }
            }
            parser.builtin_a2mlspec = spec;

            if result.is_none() {
                let spec = parser.file_a2mlspec.take();
                if let Some(a2mlspec) = &spec {
                    if let Some(ifdata_items) = parse_ifdata_from_spec(parser, context, a2mlspec) {
                        result = Some(ifdata_items);
                        valid = true;
                    }
                }
                parser.file_a2mlspec = spec;
            }

            if result.is_none() {
                result = Some(parse_unknown_ifdata_start(parser, context)?);
                valid = false;
            }
        }
    }
    Ok((result, valid))
}

/// Reads an IF_DATA block generically. By convention its content is a tagged
/// union, so where it starts with an identifier, that is taken as the tag.
pub fn parse_unknown_ifdata_start(parser: &mut ParserState, context: &ParseContext) -> (r: Result<
    GenericIfData,
    ParseError,
>)
    requires
        old(parser).wf(),
    ensures
        final(parser).wf(),
        final(parser).same_input(*old(parser)),
        data_agrees(
            r,
            unknown_start_step(old(parser).input(), context@, old(parser).cursor()),
            final(parser).cursor(),
        ),
        sane_up_to_end(old(parser).tokens@, old(parser).token_cursor as int) ==> (r is Ok
            && final(parser).token_cursor == skip_content(
            old(parser).tokens@,
            old(parser).token_cursor as int,
        )),
{
    proof {
        law_unknown_start_terminates(parser.input(), context@, parser.cursor());
        if sane_up_to_end(parser.tokens@, parser.token_cursor as int) {
            law_unknown_start_reads_sane_content(parser.input(), context@, parser.cursor());
        }
    }
    if let Some(A2lTokenType::Identifier) = parser.peek_type() {
        let start_offset = parser.get_current_line_offset();
        let token = parser.get_token(context)?;
        let tag = token.text.clone();
        let uid = parser.get_next_id();
        let newcontext = ParseContext::from_token(&tag, &token, false);
        let result = parse_unknown_ifdata(parser, &newcontext, true)?;
        let end_offset = parser.get_current_line_offset();
        let taggeditem = GenericIfDataTaggedItem {
            incfile: parser.get_incfilename(newcontext.fileid),
            line: newcontext.line,
            uid,
            start_offset,
            end_offset,
            tag,
            data: result,
            is_block: false,
        };
        let tuitem = vec![taggeditem];
        assert(tagged_list_view(tuitem) =~= seq![taggeditem@]);
        let items: Vec<GenericIfData> = vec![GenericIfData::TaggedUnion(tuitem)];
        assert(ifdata_list_view(items) =~= seq![items@[0]@]);
        Ok(
            GenericIfData::Block {
                incfile: parser.get_incfilename(context.fileid),
                line: start_offset,
                items,
            },
        )
    } else {
        parse_unknown_ifdata(parser, context, true)
    }
}

/// Reads data of unknown format up to its `/end` (or, outside a block, up to
/// a `/begin` that belongs to the enclosing element): identifiers, strings,
/// numbers (as integers where they fit, else as floating point literals),
/// and inside a block, blocks gathered in tagged structs. The data is kept so
/// that it can be written out again, not interpreted.
pub fn parse_unknown_ifdata(parser: &mut ParserState, context: &ParseContext, is_block: bool) -> (r:
    Result<GenericIfData, ParseError>)
    requires
        old(parser).wf(),
    ensures
        final(parser).wf(),
        final(parser).same_input(*old(parser)),
        data_agrees(
            r,
            unknown_step(old(parser).input(), context@, is_block, old(parser).cursor()),
            final(parser).cursor(),
        ),
        r is Ok ==> old(parser).token_cursor <= final(parser).token_cursor,
        is_block && sane_up_to_end(old(parser).tokens@, old(parser).token_cursor as int) ==> (r is Ok
            && final(parser).token_cursor == skip_content(
            old(parser).tokens@,
            old(parser).token_cursor as int,
        )),
    decreases old(parser).tokens@.len() - old(parser).token_cursor, 4int,
{
    proof {
        lemma_unknown_terminates(parser.input(), context@, is_block, parser.cursor());
        if is_block && sane_up_to_end(parser.tokens@, parser.token_cursor as int) {
            law_unknown_reads_sane_content(parser.input(), context@, parser.cursor());
        }
    }
    let ghost inp = parser.input();
    let ghost c0 = parser.cursor();
    let ghost ctx = context@;
    let ghost full = unknown_loop(inp, ctx, is_block, c0, seq![]);
    let mut items: Vec<GenericIfData> = Vec::new();
    assert(ifdata_list_view(items) =~= Seq::<IfDataV>::empty());
    let offset = parser.get_current_line_offset();
    loop
        invariant_except_break
            full == unknown_loop(inp, ctx, is_block, parser.cursor(), ifdata_list_view(items)),
        invariant
            parser.wf(),
            parser.same_input(*old(parser)),
            inp == old(parser).input(),
            c0 == old(parser).cursor(),
            parser.input() == inp,
            ctx == context@,
            c0.pos <= parser.token_cursor,
            full == unknown_loop(inp, ctx, is_block, c0, seq![]),
            full !is Diverge,
            is_block && sane_up_to_end(inp.toks, c0.pos) ==> (full is Done && full->Done_1.pos
                == skip_content(inp.toks, c0.pos)),
        ensures
            full == Step::Done(ifdata_list_view(items), parser.cursor()),
        decreases inp.toks.len() - parser.token_cursor,
    {
        let ghost before = items;
        let ttype = match parser.peek_type() {
            Some(t) => t,
            None => {
                return Err(ParseError::UnexpectedEOF(context.duplicate()));
            },
        };
        match ttype {
            A2lTokenType::Identifier => {
                let off = parser.get_current_line_offset();
                let text = parser.get_identifier(context)?;
                let item = GenericIfData::EnumItem(off, text);
                items.push(item);
                proof {
                    lemma_push_data(before, items, item);
                }
            },
            A2lTokenType::String => {
                let off = parser.get_current_line_offset();
                let text = parser.get_string(context)?;
                let item = GenericIfData::String(off, text);
                items.push(item);
                proof {
                    lemma_push_data(before, items, item);
                }
            },
            A2lTokenType::Number => {
                let line_offset = parser.get_current_line_offset();
                match parser.get_integer(context, -2147483648, 2147483647) {
                    Ok(num) => {
                        let item = GenericIfData::Long(line_offset, num as i32);
                        items.push(item);
                        proof {
                            lemma_push_data(before, items, item);
                        }
                    },
                    Err(_) => {
                        parser.undo_get_token();
                        let floatnum = parser.get_float(context)?;
                        let item = GenericIfData::Float(line_offset, floatnum);
                        items.push(item);
                        proof {
                            lemma_push_data(before, items, item);
                        }
                    },
                }
            },
            A2lTokenType::Begin => {
                if is_block {
                    let item = parse_unknown_taggedstruct(parser, context)?;
                    items.push(item);
                    proof {
                        lemma_push_data(before, items, item);
                    }
                } else {
                    break ;
                }
            },
            A2lTokenType::End => {
                break ;
            },
            A2lTokenType::Include => {
                parser.get_token(context)?;
            },
        }
    }
    Ok(GenericIfData::Struct(parser.get_incfilename(context.fileid), offset, items))
}

/// Reads the blocks found in data of unknown format into a tagged struct
/// (a struct cannot hold blocks directly, a tagged struct can), together
/// with the tagged items that follow them. A `/begin` that starts no tagged
/// item means that the file is broken.
pub fn parse_unknown_taggedstruct(parser: &mut ParserState, context: &ParseContext) -> (r: Result<
    GenericIfData,
    ParseError,
>)
    requires
        old(parser).wf(),
    ensures
        final(parser).wf(),
        final(parser).same_input(*old(parser)),
        data_agrees(
            r,
            unknown_taggedstruct_step(old(parser).input(), context@, old(parser).cursor()),
            final(parser).cursor(),
        ),
    decreases old(parser).tokens@.len() - old(parser).token_cursor, 2int,
{
    proof {
        lemma_unknown_taggedstruct_terminates(parser.input(), context@, parser.cursor());
    }
    let ghost inp = parser.input();
    let ghost c0 = parser.cursor();
    let ghost ctx = context@;
    let ghost full = unknown_ts_loop(inp, ctx, c0, seq![]);
    let mut tsitems: Vec<GenericIfDataTaggedItem> = Vec::new();
    assert(tagged_list_view(tsitems) =~= Seq::<TaggedItemV>::empty());
    loop
        invariant_except_break
            full == unknown_ts_loop(inp, ctx, parser.cursor(), tagged_list_view(tsitems)),
        invariant
            parser.wf(),
            parser.same_input(*old(parser)),
            inp == old(parser).input(),
            c0 == old(parser).cursor(),
            parser.input() == inp,
            ctx == context@,
            c0.pos <= parser.token_cursor,
            full == unknown_ts_loop(inp, ctx, c0, seq![]),
            full !is Diverge,
        ensures
            full == Step::Done(tagged_list_view(tsitems), parser.cursor()),
        decreases inp.toks.len() - parser.token_cursor,
    {
        let ghost before = tsitems;
        match parser.get_next_tag(context) {
            Some((token, is_block, start_offset)) => {
                let uid = parser.get_next_id();
                let tag = token.text.clone();
                let newcontext = ParseContext::from_token(&tag, &token, true);
                let result = parse_unknown_ifdata(parser, &newcontext, is_block)?;
                let end_offset = parser.get_current_line_offset();
                if is_block {
                    parser.expect_token(&newcontext, A2lTokenType::End)?;
                    let endtag = parser.get_identifier(&newcontext)?;
                    if !(endtag == tag) {
                        return Err(ParseError::IncorrectEndTag(newcontext, endtag));
                    }
                }
                let taggeditem = GenericIfDataTaggedItem {
                    incfile: parser.get_incfilename(newcontext.fileid),
                    line: newcontext.line,
                    uid,
                    start_offset,
                    end_offset,
                    tag,
                    data: result,
                    is_block,
                };
                tsitems.push(taggeditem);
                proof {
                    lemma_push_item(before, tsitems, taggeditem);
                }
            },
            None => {
                break ;
            },
        }
    }
    if let Some(A2lTokenType::Begin) = parser.peek_type() {
        return Err(ParseError::InvalidBegin(context.duplicate()));
    }
    Ok(GenericIfData::TaggedStruct(tsitems))
}

} // verus!
