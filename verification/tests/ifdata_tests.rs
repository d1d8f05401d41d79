use lib::a2lfile::{
    remove_unknown_ifdata, remove_unknown_ifdata_from_list, A2lFile, IfData, IfDataElement, ModPar,
    Module, Project,
};
use lib::a2ml::{
    items_with_tag_exec, A2mlTaggedTypeSpec, A2mlTypeSpec, GenericIfData, GenericIfDataTaggedItem,
};
use lib::ifdata::{
    parse_ifdata, parse_ifdata_from_spec, parse_ifdata_item, parse_ifdata_make_block,
    parse_ifdata_taggeditem, parse_ifdata_taggedstruct, parse_unknown_ifdata,
    parse_unknown_ifdata_start, parse_unknown_taggedstruct,
};
use lib::number::{float_text_check, parse_int_text};
use lib::parser::{ParseContext, ParseError, ParserState};
use lib::tokens::{A2lToken, A2lTokenType};
use lib::wellformed::{
    a2ml_names_unique, a2ml_productive, a2ml_terminating, a2ml_well_formed, parser_specs_well_formed,
};

fn tok(ttype: A2lTokenType, text: &str, line: u32) -> A2lToken {
    A2lToken { ttype, text: text.to_string(), fileid: 0, line }
}

fn id(text: &str, line: u32) -> A2lToken {
    tok(A2lTokenType::Identifier, text, line)
}

fn num(text: &str, line: u32) -> A2lToken {
    tok(A2lTokenType::Number, text, line)
}

fn string(text: &str, line: u32) -> A2lToken {
    tok(A2lTokenType::String, text, line)
}

fn begin(line: u32) -> A2lToken {
    tok(A2lTokenType::Begin, "/begin", line)
}

fn end(line: u32) -> A2lToken {
    tok(A2lTokenType::End, "/end", line)
}

fn state(tokens: Vec<A2lToken>) -> ParserState {
    ParserState::new(tokens, vec!["main.a2l".to_string()], None, None)
}

fn ctx() -> ParseContext {
    ParseContext { element: "IF_DATA".to_string(), fileid: 0, line: 1, inside_block: true }
}

fn tagged(tag: &str, item: A2mlTypeSpec, is_block: bool) -> A2mlTaggedTypeSpec {
    A2mlTaggedTypeSpec { tag: tag.to_string(), item, is_block, repeat: false }
}

#[test]
fn empty_ifdata_gives_nothing() {
    let mut p = state(vec![end(1), id("IF_DATA", 1)]);
    let r = parse_ifdata(&mut p, &ctx()).unwrap();
    assert_eq!(r, (None, false));
    assert_eq!(p.token_cursor, 0);
}

#[test]
fn no_tokens_gives_nothing() {
    let mut p = state(vec![]);
    assert_eq!(parse_ifdata(&mut p, &ctx()).unwrap(), (None, false));
}

#[test]
fn builtin_spec_reads_block() {
    let spec = A2mlTypeSpec::Struct(vec![A2mlTypeSpec::UInt, A2mlTypeSpec::Long]);
    let mut p = state(vec![num("0x10", 2), num("-5", 2), end(3), id("IF_DATA", 3)]);
    p.builtin_a2mlspec = Some(spec);
    let (data, valid) = parse_ifdata(&mut p, &ctx()).unwrap();
    assert!(valid);
    assert_eq!(
        data,
        Some(GenericIfData::Block {
            incfile: None,
            line: 1,
            items: vec![GenericIfData::UInt(2, 16), GenericIfData::Long(0, -5)],
        })
    );
    assert_eq!(p.token_cursor, 2);
    assert!(p.builtin_a2mlspec.is_some());
}

#[test]
fn file_spec_is_second_choice() {
    let mut p = state(vec![string("abc", 1), end(1), id("IF_DATA", 1)]);
    p.builtin_a2mlspec = Some(A2mlTypeSpec::UChar);
    p.file_a2mlspec = Some(A2mlTypeSpec::Array(Box::new(A2mlTypeSpec::Char), 10));
    let (data, valid) = parse_ifdata(&mut p, &ctx()).unwrap();
    assert!(valid);
    assert_eq!(
        data,
        Some(GenericIfData::Block {
            incfile: None,
            line: 1,
            items: vec![GenericIfData::String(0, "abc".to_string())],
        })
    );
}

#[test]
fn spec_that_does_not_reach_end_falls_back() {
    // the spec reads one number, but two follow: the generic reading is used
    // (the first attempt has already read the line of the first number)
    let mut p = state(vec![num("1", 1), num("2", 1), end(1)]);
    p.builtin_a2mlspec = Some(A2mlTypeSpec::UChar);
    let (data, valid) = parse_ifdata(&mut p, &ctx()).unwrap();
    assert!(!valid);
    assert_eq!(
        data,
        Some(GenericIfData::Struct(
            None,
            0,
            vec![GenericIfData::Long(0, 1), GenericIfData::Long(0, 2)],
        ))
    );
    assert_eq!(p.token_cursor, 2);
}

#[test]
fn generic_reading_with_tag() {
    let mut p = state(vec![
        id("XCP", 5),
        num("1", 5),
        num("2.5", 6),
        string("s", 6),
        id("ON", 7),
        end(8),
    ]);
    let (data, valid) = parse_ifdata(&mut p, &ctx()).unwrap();
    assert!(!valid);
    let item = GenericIfDataTaggedItem {
        incfile: None,
        line: 5,
        uid: 1,
        start_offset: 5,
        end_offset: 1,
        tag: "XCP".to_string(),
        data: GenericIfData::Struct(
            None,
            0,
            vec![
                GenericIfData::Long(0, 1),
                GenericIfData::Float(1, "2.5".to_string()),
                GenericIfData::String(0, "s".to_string()),
                GenericIfData::EnumItem(1, "ON".to_string()),
            ],
        ),
        is_block: false,
    };
    assert_eq!(
        data,
        Some(GenericIfData::Block {
            incfile: None,
            line: 5,
            items: vec![GenericIfData::TaggedUnion(vec![item])],
        })
    );
    assert_eq!(p.sequential_id, 1);
}

#[test]
fn generic_reading_of_nested_blocks() {
    let mut p = state(vec![
        num("3", 1),
        begin(2),
        id("A", 2),
        num("1", 2),
        end(2),
        id("A", 2),
        end(3),
    ]);
    let r = parse_unknown_ifdata(&mut p, &ctx(), true).unwrap();
    let inner = GenericIfDataTaggedItem {
        incfile: None,
        line: 2,
        uid: 1,
        start_offset: 1,
        end_offset: 0,
        tag: "A".to_string(),
        data: GenericIfData::Struct(None, 0, vec![GenericIfData::Long(0, 1)]),
        is_block: true,
    };
    assert_eq!(
        r,
        GenericIfData::Struct(
            None,
            1,
            vec![GenericIfData::Long(1, 3), GenericIfData::TaggedStruct(vec![inner])],
        )
    );
    assert_eq!(p.token_cursor, 6);
}

#[test]
fn generic_reading_with_incorrect_end_tag() {
    let mut p = state(vec![begin(1), id("A", 1), end(1), id("B", 1), end(2)]);
    let r = parse_unknown_ifdata(&mut p, &ctx(), true);
    assert!(matches!(r, Err(ParseError::IncorrectEndTag(_, ref t)) if t == "B"));
}

#[test]
fn generic_reading_with_invalid_begin() {
    let mut p = state(vec![begin(1), num("5", 1), end(2)]);
    let r = parse_unknown_ifdata(&mut p, &ctx(), true);
    assert!(matches!(r, Err(ParseError::InvalidBegin(_))));
}

#[test]
fn generic_reading_without_end() {
    let mut p = state(vec![num("1", 1), id("X", 1)]);
    let r = parse_unknown_ifdata(&mut p, &ctx(), true);
    assert!(matches!(r, Err(ParseError::UnexpectedEOF(_))));
}

#[test]
fn generic_reading_with_malformed_number() {
    let mut p = state(vec![num("1x2", 1), end(1)]);
    let r = parse_unknown_ifdata(&mut p, &ctx(), true);
    assert!(matches!(r, Err(ParseError::MalformedNumber(_, ref t)) if t == "1x2"));
    assert_eq!(p.token_cursor, 1);
}

#[test]
fn generic_reading_large_number_is_float() {
    let mut p = state(vec![num("3000000000", 1), end(1)]);
    let r = parse_unknown_ifdata(&mut p, &ctx(), true).unwrap();
    assert_eq!(
        r,
        GenericIfData::Struct(None, 1, vec![GenericIfData::Float(1, "3000000000".to_string())])
    );
}

#[test]
fn generic_reading_outside_block_stops_at_begin() {
    let mut p = state(vec![id("A", 1), begin(1), id("B", 1), end(1), id("B", 1), end(1)]);
    let r = parse_unknown_ifdata(&mut p, &ctx(), false).unwrap();
    assert_eq!(
        r,
        GenericIfData::Struct(None, 1, vec![GenericIfData::EnumItem(1, "A".to_string())])
    );
    assert_eq!(p.token_cursor, 1);
}

#[test]
fn generic_start_without_tag() {
    let mut p = state(vec![num("7", 1), end(1)]);
    let r = parse_unknown_ifdata_start(&mut p, &ctx()).unwrap();
    assert_eq!(r, GenericIfData::Struct(None, 1, vec![GenericIfData::Long(1, 7)]));
}

#[test]
fn unknown_taggedstruct_reads_blocks_and_following_tags() {
    let mut p = state(vec![
        begin(1),
        id("A", 1),
        end(1),
        id("A", 1),
        id("B", 2),
        num("4", 2),
        end(3),
    ]);
    let r = parse_unknown_taggedstruct(&mut p, &ctx()).unwrap();
    match r {
        GenericIfData::TaggedStruct(items) => {
            assert_eq!(items.len(), 2);
            assert_eq!(items[0].tag, "A");
            assert!(items[0].is_block);
            assert_eq!(items[1].tag, "B");
            assert!(!items[1].is_block);
            assert_eq!(items[1].data, GenericIfData::Struct(None, 0, vec![GenericIfData::Long(0, 4)]));
            assert_eq!(items[0].uid, 1);
            assert_eq!(items[1].uid, 2);
        },
        _ => panic!("not a tagged struct"),
    }
    assert_eq!(p.token_cursor, 6);
}

#[test]
fn item_integers_and_ranges() {
    let mut p = state(vec![num("-128", 1), num("128", 1)]);
    assert_eq!(parse_ifdata_item(&mut p, &ctx(), &A2mlTypeSpec::Char), Ok(GenericIfData::Char(1, -128)));
    let r = parse_ifdata_item(&mut p, &ctx(), &A2mlTypeSpec::Char);
    assert!(matches!(r, Err(ParseError::MalformedNumber(_, ref t)) if t == "128"));
}

#[test]
fn item_wrong_token_type() {
    let mut p = state(vec![string("x", 1)]);
    let r = parse_ifdata_item(&mut p, &ctx(), &A2mlTypeSpec::UInt64);
    assert!(matches!(
        r,
        Err(ParseError::UnexpectedTokenType(_, A2lTokenType::String, ref t, A2lTokenType::Number)) if t == "x"
    ));
}

#[test]
fn item_enum() {
    let spec = A2mlTypeSpec::Enum(vec![("ON".to_string(), Some(1)), ("OFF".to_string(), None)]);
    let mut p = state(vec![id("OFF", 1), id("MAYBE", 1)]);
    assert_eq!(
        parse_ifdata_item(&mut p, &ctx(), &spec),
        Ok(GenericIfData::EnumItem(1, "OFF".to_string()))
    );
    let r = parse_ifdata_item(&mut p, &ctx(), &spec);
    assert!(matches!(r, Err(ParseError::InvalidEnumValue(_, ref t)) if t == "MAYBE"));
}

#[test]
fn item_string_too_long() {
    let spec = A2mlTypeSpec::Array(Box::new(A2mlTypeSpec::Char), 3);
    let mut p = state(vec![string("abcd", 1)]);
    let r = parse_ifdata_item(&mut p, &ctx(), &spec);
    assert!(matches!(r, Err(ParseError::StringTooLong(_, ref t, 3, 4)) if t == "abcd"));
}

#[test]
fn item_array_and_double() {
    let spec = A2mlTypeSpec::Array(Box::new(A2mlTypeSpec::Double), 2);
    let mut p = state(vec![num("1.5e3", 1), num("-.25", 2)]);
    assert_eq!(
        parse_ifdata_item(&mut p, &ctx(), &spec),
        Ok(GenericIfData::Array(vec![
            GenericIfData::Double(1, "1.5e3".to_string()),
            GenericIfData::Double(1, "-.25".to_string()),
        ]))
    );
}

#[test]
fn item_sequence_stops_after_last_element() {
    let spec = A2mlTypeSpec::Sequence(Box::new(A2mlTypeSpec::UInt));
    let mut p = state(vec![num("1", 1), num("2", 1), num("3", 1), id("x", 1)]);
    assert_eq!(
        parse_ifdata_item(&mut p, &ctx(), &spec),
        Ok(GenericIfData::Sequence(vec![
            GenericIfData::UInt(1, 1),
            GenericIfData::UInt(0, 2),
            GenericIfData::UInt(0, 3),
        ]))
    );
    assert_eq!(p.token_cursor, 3);
}

#[test]
fn item_empty_struct_and_none() {
    let mut p = state(vec![end(1)]);
    assert_eq!(parse_ifdata_item(&mut p, &ctx(), &A2mlTypeSpec::Empty), Ok(GenericIfData::Empty));
    assert_eq!(
        parse_ifdata_item(&mut p, &ctx(), &A2mlTypeSpec::Struct(vec![])),
        Ok(GenericIfData::Struct(None, 1, vec![]))
    );
    assert_eq!(p.token_cursor, 0);
}

#[test]
fn tagged_struct_reads_items_in_order() {
    let spec = vec![
        tagged("A", A2mlTypeSpec::UChar, false),
        tagged("B", A2mlTypeSpec::Struct(vec![A2mlTypeSpec::UChar, A2mlTypeSpec::UChar]), true),
    ];
    let mut p = state(vec![
        id("A", 1),
        num("1", 1),
        begin(2),
        id("B", 2),
        num("2", 2),
        num("3", 2),
        end(2),
        id("B", 2),
        id("A", 3),
        num("4", 3),
        id("C", 4),
    ]);
    let items = parse_ifdata_taggedstruct(&mut p, &ctx(), &spec).unwrap();
    assert_eq!(items.len(), 3);
    assert_eq!(items[0].tag, "A");
    assert_eq!(items[0].data, GenericIfData::Block { incfile: None, line: 1, items: vec![GenericIfData::UChar(0, 1)] });
    assert_eq!(items[1].tag, "B");
    assert!(items[1].is_block);
    assert_eq!(
        items[1].data,
        GenericIfData::Block {
            incfile: None,
            line: 2,
            items: vec![GenericIfData::UChar(0, 2), GenericIfData::UChar(0, 3)],
        }
    );
    assert_eq!(items[2].tag, "A");
    // the unknown tag C is left for the caller
    assert_eq!(p.token_cursor, 10);
    let a_items = items_with_tag_exec(&items, &"A".to_string());
    assert_eq!(a_items, vec![0, 2]);
}

#[test]
fn tagged_item_block_mismatch_is_not_read() {
    let spec = vec![tagged("A", A2mlTypeSpec::UChar, true)];
    let mut p = state(vec![id("A", 1), num("1", 1)]);
    assert_eq!(parse_ifdata_taggeditem(&mut p, &ctx(), &spec), Ok(None));
    assert_eq!(p.token_cursor, 0);
}

#[test]
fn tagged_item_with_incorrect_end_tag() {
    let spec = vec![tagged("A", A2mlTypeSpec::UChar, true)];
    let mut p = state(vec![begin(1), id("A", 1), num("1", 1), end(1), id("B", 1)]);
    let r = parse_ifdata_taggeditem(&mut p, &ctx(), &spec);
    assert!(matches!(r, Err(ParseError::IncorrectEndTag(ref c, ref t)) if t == "B" && c.element == "A"));
}

#[test]
fn tagged_union_reads_one_item() {
    let spec = A2mlTypeSpec::TaggedUnion(vec![
        tagged("A", A2mlTypeSpec::UChar, false),
        tagged("B", A2mlTypeSpec::UChar, false),
    ]);
    let mut p = state(vec![id("B", 1), num("9", 1), id("A", 1), num("1", 1)]);
    match parse_ifdata_item(&mut p, &ctx(), &spec).unwrap() {
        GenericIfData::TaggedUnion(items) => {
            assert_eq!(items.len(), 1);
            assert_eq!(items[0].tag, "B");
        },
        _ => panic!("not a tagged union"),
    }
    assert_eq!(p.token_cursor, 2);
    let mut q = state(vec![num("9", 1)]);
    assert_eq!(parse_ifdata_item(&mut q, &ctx(), &spec), Ok(GenericIfData::TaggedUnion(vec![])));
}

#[test]
fn from_spec_restores_position() {
    let mut p = state(vec![num("1", 1), num("2", 1), end(1)]);
    assert_eq!(parse_ifdata_from_spec(&mut p, &ctx(), &A2mlTypeSpec::UChar), None);
    assert_eq!(p.token_cursor, 0);
    let spec = A2mlTypeSpec::Struct(vec![A2mlTypeSpec::UChar, A2mlTypeSpec::UChar]);
    assert_eq!(
        parse_ifdata_from_spec(&mut p, &ctx(), &spec),
        Some(GenericIfData::Block {
            incfile: None,
            line: 1,
            items: vec![GenericIfData::UChar(0, 1), GenericIfData::UChar(0, 2)],
        })
    );
    assert_eq!(p.token_cursor, 2);
}

#[test]
fn make_block_of_struct_and_scalar() {
    let s = GenericIfData::Struct(None, 3, vec![GenericIfData::UChar(0, 1)]);
    assert_eq!(
        parse_ifdata_make_block(s, Some("inc.a2l".to_string()), 7),
        GenericIfData::Block {
            incfile: Some("inc.a2l".to_string()),
            line: 7,
            items: vec![GenericIfData::UChar(0, 1)],
        }
    );
    assert_eq!(
        parse_ifdata_make_block(GenericIfData::Long(2, 5), None, 1),
        GenericIfData::Block { incfile: None, line: 1, items: vec![GenericIfData::Long(2, 5)] }
    );
}

#[test]
fn included_file_name() {
    let mut p = ParserState::new(
        vec![A2lToken { ttype: A2lTokenType::Number, text: "1".to_string(), fileid: 1, line: 4 }, end(5)],
        vec!["main.a2l".to_string(), "inc.a2l".to_string()],
        None,
        None,
    );
    let c = ParseContext { element: "IF_DATA".to_string(), fileid: 1, line: 3, inside_block: true };
    let r = parse_unknown_ifdata(&mut p, &c, true).unwrap();
    assert_eq!(
        r,
        GenericIfData::Struct(Some("inc.a2l".to_string()), 4, vec![GenericIfData::Long(4, 1)])
    );
}

fn ifd(valid: bool, v: i32) -> IfData {
    IfData { ifdata_items: Some(GenericIfData::Long(0, v)), ifdata_valid: valid }
}

#[test]
fn remove_from_list_keeps_valid_in_order() {
    let mut l = vec![ifd(true, 1), ifd(false, 2), ifd(true, 3), ifd(false, 4)];
    remove_unknown_ifdata_from_list(&mut l);
    assert_eq!(l, vec![ifd(true, 1), ifd(true, 3)]);
    remove_unknown_ifdata_from_list(&mut l);
    assert_eq!(l, vec![ifd(true, 1), ifd(true, 3)]);
}

fn elem(name: &str, list: Vec<IfData>) -> IfDataElement {
    IfDataElement { name: name.to_string(), if_data: list }
}

#[test]
fn remove_from_file() {
    let module = Module {
        name: "M".to_string(),
        if_data: vec![ifd(false, 1), ifd(true, 2)],
        mod_par: Some(ModPar {
            memory_layout: vec![elem("ML", vec![ifd(false, 3)])],
            memory_segment: vec![elem("MS", vec![ifd(true, 4)])],
        }),
        axis_pts: vec![elem("AP", vec![ifd(true, 5), ifd(false, 6)])],
        blob: vec![],
        characteristic: vec![elem("C1", vec![]), elem("C2", vec![ifd(false, 7)])],
        frame: vec![],
        function: vec![],
        group: vec![],
        instance: vec![],
        measurement: vec![elem("MEAS", vec![ifd(false, 8), ifd(true, 9)])],
    };
    let mut file = A2lFile { project: Project { module: vec![module] } };
    remove_unknown_ifdata(&mut file);
    let m = &file.project.module[0];
    assert_eq!(m.if_data, vec![ifd(true, 2)]);
    let mp = m.mod_par.as_ref().unwrap();
    assert_eq!(mp.memory_layout, vec![elem("ML", vec![])]);
    assert_eq!(mp.memory_segment, vec![elem("MS", vec![ifd(true, 4)])]);
    assert_eq!(m.axis_pts, vec![elem("AP", vec![ifd(true, 5)])]);
    assert_eq!(m.characteristic, vec![elem("C1", vec![]), elem("C2", vec![])]);
    assert_eq!(m.measurement, vec![elem("MEAS", vec![ifd(true, 9)])]);
    assert_eq!(m.name, "M");
}

#[test]
fn integer_texts() {
    assert_eq!(parse_int_text("0x1F", 0, 255), Some(31));
    assert_eq!(parse_int_text("0X1f", 0, 255), Some(31));
    assert_eq!(parse_int_text("+12", 0, 255), Some(12));
    assert_eq!(parse_int_text("-12", -128, 127), Some(-12));
    assert_eq!(parse_int_text("-12", 0, 255), None);
    assert_eq!(parse_int_text("256", 0, 255), None);
    assert_eq!(parse_int_text("0x", 0, 255), None);
    assert_eq!(parse_int_text("", 0, 255), None);
    assert_eq!(parse_int_text("99999999999999999999999999", 0, 255), None);
    assert_eq!(parse_int_text("18446744073709551615", 0, 18446744073709551615), Some(18446744073709551615));
    assert_eq!(parse_int_text("-9223372036854775808", -9223372036854775808, 0), Some(-9223372036854775808));
}

#[test]
fn float_texts() {
    assert!(float_text_check("1.5"));
    assert!(float_text_check("1."));
    assert!(float_text_check(".5"));
    assert!(float_text_check("-1e10"));
    assert!(float_text_check("+2.5E-3"));
    assert!(float_text_check("0x7F"));
    assert!(float_text_check("42"));
    assert!(!float_text_check("."));
    assert!(!float_text_check("1e"));
    assert!(!float_text_check("1.5x"));
    assert!(!float_text_check(""));
    assert!(!float_text_check("0x"));
}

#[test]
fn next_tag_and_line_offsets() {
    let mut p = state(vec![id("A", 3), begin(5), id("B", 6), end(8)]);
    assert_eq!(p.get_current_line_offset(), 3);
    let (t, is_block, start) = p.get_next_tag(&ctx()).unwrap();
    assert_eq!((t.text.as_str(), is_block, start), ("A", false, 3));
    assert_eq!(p.get_current_line_offset(), 2);
    let (t, is_block, start) = p.get_next_tag(&ctx()).unwrap();
    assert_eq!((t.text.as_str(), is_block, start), ("B", true, 2));
    assert!(p.get_next_tag(&ctx()).is_none());
    assert_eq!(p.token_cursor, 3);
}

#[test]
fn generic_reading_steps_over_include() {
    let mut p = state(vec![
        num("1", 1),
        tok(A2lTokenType::Include, "/include", 2),
        id("X", 3),
        end(4),
    ]);
    let r = parse_unknown_ifdata(&mut p, &ctx(), true).unwrap();
    assert_eq!(
        r,
        GenericIfData::Struct(
            None,
            1,
            vec![GenericIfData::Long(1, 1), GenericIfData::EnumItem(1, "X".to_string())],
        )
    );
    assert_eq!(p.token_cursor, 3);
}

#[test]
fn specs_with_unique_names_and_productive_sequences_are_well_formed() {
    let good = A2mlTypeSpec::Struct(vec![
        A2mlTypeSpec::Sequence(Box::new(A2mlTypeSpec::UInt)),
        A2mlTypeSpec::TaggedStruct(vec![
            tagged("A", A2mlTypeSpec::UChar, false),
            tagged("B", A2mlTypeSpec::Enum(vec![("X".to_string(), None), ("Y".to_string(), None)]), true),
        ]),
    ]);
    assert!(a2ml_well_formed(&good));
    let dup_tag = A2mlTypeSpec::TaggedUnion(vec![
        tagged("A", A2mlTypeSpec::UChar, false),
        tagged("A", A2mlTypeSpec::UInt, false),
    ]);
    assert!(!a2ml_names_unique(&dup_tag));
    let dup_enum = A2mlTypeSpec::Enum(vec![("X".to_string(), None), ("X".to_string(), Some(1))]);
    assert!(!a2ml_names_unique(&dup_enum));
    let endless = A2mlTypeSpec::Sequence(Box::new(A2mlTypeSpec::TaggedStruct(vec![])));
    assert!(a2ml_names_unique(&endless));
    assert!(!a2ml_terminating(&endless));
    assert!(!a2ml_well_formed(&endless));
    assert!(a2ml_productive(&A2mlTypeSpec::Array(Box::new(A2mlTypeSpec::Char), 0)));
    assert!(!a2ml_productive(&A2mlTypeSpec::Array(Box::new(A2mlTypeSpec::UInt), 0)));
    assert!(a2ml_productive(&A2mlTypeSpec::Struct(vec![A2mlTypeSpec::Empty, A2mlTypeSpec::Long])));
    assert!(!a2ml_productive(&A2mlTypeSpec::Struct(vec![A2mlTypeSpec::Empty])));
}

#[test]
fn parser_specs_check() {
    let mut p = state(vec![end(1)]);
    assert!(parser_specs_well_formed(&p));
    p.file_a2mlspec = Some(A2mlTypeSpec::Sequence(Box::new(A2mlTypeSpec::Empty)));
    assert!(!parser_specs_well_formed(&p));
    p.file_a2mlspec = Some(A2mlTypeSpec::Sequence(Box::new(A2mlTypeSpec::Double)));
    assert!(parser_specs_well_formed(&p));
}

#[test]
fn sequence_then_next_element_fails() {
    let spec = A2mlTypeSpec::Sequence(Box::new(A2mlTypeSpec::UChar));
    let mut p = state(vec![num("1", 1), num("300", 1), end(1)]);
    assert_eq!(
        parse_ifdata_item(&mut p, &ctx(), &spec),
        Ok(GenericIfData::Sequence(vec![GenericIfData::UChar(1, 1)]))
    );
    let pos = p.token_cursor;
    assert!(parse_ifdata_item(&mut p, &ctx(), &A2mlTypeSpec::UChar).is_err());
    assert_eq!(pos, 1);
}

#[test]
fn taggedstruct_then_no_further_item() {
    let spec = vec![tagged("A", A2mlTypeSpec::UChar, false)];
    let mut p = state(vec![id("A", 1), num("1", 1), id("B", 2)]);
    let items = parse_ifdata_taggedstruct(&mut p, &ctx(), &spec).unwrap();
    assert_eq!(items.len(), 1);
    let pos = p.get_tokenpos();
    assert_eq!(parse_ifdata_taggeditem(&mut p, &ctx(), &spec), Ok(None));
    assert_eq!(p.get_tokenpos(), pos);
}
