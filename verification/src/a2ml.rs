//! A2ML type specifications and the generic data that IF_DATA blocks are
//! parsed into, with their mathematical views.
use vstd::prelude::*;

verus! {

/// A type of the A2ML language, as an A2ML specification declares it.
///
/// Where the A2ML language has a map from names to items (enumerators,
/// tagged items), the list holds each name at most once.
#[derive(Debug, PartialEq)]
pub enum A2mlTypeSpec {
    Empty,
    Char,
    Int,
    Long,
    Int64,
    UChar,
    UInt,
    ULong,
    UInt64,
    Float,
    Double,
    /// An array of a type with a fixed dimension; an array of `Char` is a
    /// string of at most that many characters.
    Array(Box<A2mlTypeSpec>, usize),
    /// An enumeration: its enumerators with their optional values.
    Enum(Vec<(String, Option<i32>)>),
    Struct(Vec<A2mlTypeSpec>),
    /// Zero or more repetitions of a type.
    Sequence(Box<A2mlTypeSpec>),
    /// Any number of tagged items, each introduced by its tag.
    TaggedStruct(Vec<A2mlTaggedTypeSpec>),
    /// At most one tagged item out of several.
    TaggedUnion(Vec<A2mlTaggedTypeSpec>),
}

/// A tagged item of a tagged struct or tagged union: the tag, the type of its
/// content, whether it is a `/begin TAG ... /end TAG` block, and whether it may
/// occur more than once.
#[derive(Debug, PartialEq)]
pub struct A2mlTaggedTypeSpec {
    pub tag: String,
    pub item: A2mlTypeSpec,
    pub is_block: bool,
    pub repeat: bool,
}

/// Data of an IF_DATA block, parsed either according to an A2ML type or
/// generically. Each scalar keeps the offset of its line from the line of the
/// token before it. `Float` and `Double` keep the text of the number.
#[derive(Debug, PartialEq)]
pub enum GenericIfData {
    Empty,
    Char(u32, i8),
    Int(u32, i16),
    Long(u32, i32),
    Int64(u32, i64),
    UChar(u32, u8),
    UInt(u32, u16),
    ULong(u32, u32),
    UInt64(u32, u64),
    Float(u32, String),
    Double(u32, String),
    String(u32, String),
    Array(Vec<GenericIfData>),
    EnumItem(u32, String),
    Sequence(Vec<GenericIfData>),
    /// The tagged items of a tagged struct, in the order they were read.
    TaggedStruct(Vec<GenericIfDataTaggedItem>),
    /// The tagged item of a tagged union, if one was read.
    TaggedUnion(Vec<GenericIfDataTaggedItem>),
    Struct(Option<String>, u32, Vec<GenericIfData>),
    Block { incfile: Option<String>, line: u32, items: Vec<GenericIfData> },
}

/// One tagged item: where it stands, its unique id, the line offsets of its
/// start and end, its tag, its content and whether it was a block.
#[derive(Debug, PartialEq)]
pub struct GenericIfDataTaggedItem {
    pub incfile: Option<String>,
    pub line: u32,
    pub uid: u32,
    pub start_offset: u32,
    pub end_offset: u32,
    pub tag: String,
    pub data: GenericIfData,
    pub is_block: bool,
}

/// The view of `GenericIfData`: strings become character sequences and
/// lists become sequences.
pub enum IfDataV {
    Empty,
    Char(u32, i8),
    Int(u32, i16),
    Long(u32, i32),
    Int64(u32, i64),
    UChar(u32, u8),
    UInt(u32, u16),
    ULong(u32, u32),
    UInt64(u32, u64),
    Float(u32, Seq<char>),
    Double(u32, Seq<char>),
    String(u32, Seq<char>),
    Array(Seq<IfDataV>),
    EnumItem(u32, Seq<char>),
    Sequence(Seq<IfDataV>),
    TaggedStruct(Seq<TaggedItemV>),
    TaggedUnion(Seq<TaggedItemV>),
    Struct(Option<Seq<char>>, u32, Seq<IfDataV>),
    Block(Option<Seq<char>>, u32, Seq<IfDataV>),
}

/// The view of `GenericIfDataTaggedItem`.
pub struct TaggedItemV {
    pub incfile: Option<Seq<char>>,
    pub line: u32,
    pub uid: u32,
    pub start_offset: u32,
    pub end_offset: u32,
    pub tag: Seq<char>,
    pub data: IfDataV,
    pub is_block: bool,
}

pub open spec fn opt_string_view(o: Option<String>) -> Option<Seq<char>> {
    match o {
        Some(s) => Some(s@),
        None => None,
    }
}

pub open spec fn ifdata_view(d: GenericIfData) -> IfDataV
    decreases d,
{
    match d {
        GenericIfData::Empty => IfDataV::Empty,
        GenericIfData::Char(o, v) => IfDataV::Char(o, v),
        GenericIfData::Int(o, v) => IfDataV::Int(o, v),
        GenericIfData::Long(o, v) => IfDataV::Long(o, v),
        GenericIfData::Int64(o, v) => IfDataV::Int64(o, v),
        GenericIfData::UChar(o, v) => IfDataV::UChar(o, v),
        GenericIfData::UInt(o, v) => IfDataV::UInt(o, v),
        GenericIfData::ULong(o, v) => IfDataV::ULong(o, v),
        GenericIfData::UInt64(o, v) => IfDataV::UInt64(o, v),
        GenericIfData::Float(o, s) => IfDataV::Float(o, s@),
        GenericIfData::Double(o, s) => IfDataV::Double(o, s@),
        GenericIfData::String(o, s) => IfDataV::String(o, s@),
        GenericIfData::Array(v) => IfDataV::Array(ifdata_list_view(v)),
        GenericIfData::EnumItem(o, s) => IfDataV::EnumItem(o, s@),
        GenericIfData::Sequence(v) => IfDataV::Sequence(ifdata_list_view(v)),
        GenericIfData::TaggedStruct(v) => IfDataV::TaggedStruct(tagged_list_view(v)),
        GenericIfData::TaggedUnion(v) => IfDataV::TaggedUnion(tagged_list_view(v)),
        GenericIfData::Struct(f, l, v) => IfDataV::Struct(
            opt_string_view(f),
            l,
            ifdata_list_view(v),
        ),
        GenericIfData::Block { incfile, line, items } => IfDataV::Block(
            opt_string_view(incfile),
            line,
            ifdata_list_view(items),
        ),
    }
}

pub open spec fn ifdata_list_view(v: Vec<GenericIfData>) -> Seq<IfDataV>
    decreases v,
{
    Seq::new(
        v.len() as nat,
        |i: int|
            if 0 <= i < v.len() {
                ifdata_view(v@[i])
            } else {
                IfDataV::Empty
            },
    )
}

pub open spec fn tagged_item_view(t: GenericIfDataTaggedItem) -> TaggedItemV
    decreases t,
{
    TaggedItemV {
        incfile: opt_string_view(t.incfile),
        line: t.line,
        uid: t.uid,
        start_offset: t.start_offset,
        end_offset: t.end_offset,
        tag: t.tag@,
        data: ifdata_view(t.data),
        is_block: t.is_block,
    }
}

pub open spec fn tagged_list_view(v: Vec<GenericIfDataTaggedItem>) -> Seq<TaggedItemV>
    decreases v,
{
    Seq::new(
        v.len() as nat,
        |i: int|
            if 0 <= i < v.len() {
                tagged_item_view(v@[i])
            } else {
                TaggedItemV {
                    incfile: None,
                    line: 0,
                    uid: 0,
                    start_offset: 0,
                    end_offset: 0,
                    tag: Seq::empty(),
                    data: IfDataV::Empty,
                    is_block: false,
                }
            },
    )
}

impl View for GenericIfData {
    type V = IfDataV;

    open spec fn view(&self) -> IfDataV {
        ifdata_view(*self)
    }
}

impl View for GenericIfDataTaggedItem {
    type V = TaggedItemV;

    open spec fn view(&self) -> TaggedItemV {
        tagged_item_view(*self)
    }
}

/// The items of a tagged struct or tagged union that carry the given tag, in
/// the order they were read.
pub open spec fn items_with_tag(items: Seq<TaggedItemV>, tag: Seq<char>) -> Seq<TaggedItemV> {
    items.filter(|t: TaggedItemV| t.tag == tag)
}

/// Turns the data of a tagged item into a block: a struct gives its items,
/// anything else becomes the block's single item.
pub open spec fn make_block_view(data: IfDataV, incfile: Option<Seq<char>>, line: u32) -> IfDataV {
    match data {
        IfDataV::Struct(_, _, items) => IfDataV::Block(incfile, line, items),
        _ => IfDataV::Block(incfile, line, seq![data]),
    }
}

/// The items with the given tag among the items of a tagged struct.
pub fn items_with_tag_exec(items: &Vec<GenericIfDataTaggedItem>, tag: &String) -> (r: Vec<usize>)
    ensures
        r@.len() == items_with_tag(tagged_list_view(*items), tag@).len(),
        forall|k: int|
            0 <= k < r@.len() ==> (#[trigger] r@[k]) < items.len() && tagged_list_view(
                *items,
            )[r@[k] as int] == items_with_tag(tagged_list_view(*items), tag@)[k],
{
    let ghost all = tagged_list_view(*items);
    let ghost pred = |t: TaggedItemV| t.tag == tag@;
    let mut r: Vec<usize> = Vec::new();
    let mut i: usize = 0;
    while i < items.len()
        invariant
            i <= items.len(),
            all == tagged_list_view(*items),
            pred == (|t: TaggedItemV| t.tag == tag@),
            r@.len() == all.take(i as int).filter(pred).len(),
            forall|k: int|
                0 <= k < r@.len() ==> (#[trigger] r@[k]) < i && all[r@[k] as int] == all.take(
                    i as int,
                ).filter(pred)[k],
        decreases items.len() - i,
    {
        proof {
            reveal_with_fuel(Seq::<_>::filter, 1);
            assert(all.take(i + 1).drop_last() =~= all.take(i as int));
        }
        if items[i].tag == *tag {
            r.push(i);
        }
        i = i + 1;
    }
    proof {
        assert(all.take(i as int) =~= all);
    }
    r
}

} // verus!
