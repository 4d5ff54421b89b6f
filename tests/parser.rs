use aftermath::class_parser::reader::Parser;
use aftermath::class_parser::{Attributes, CpNode, ElementValue, StackMapFrame};
use aftermath::errors::ParsingError;

fn u2(v: u16) -> Vec<u8> {
    v.to_be_bytes().to_vec()
}

fn utf8(s: &str) -> Vec<u8> {
    let mut out = vec![1u8];
    out.extend(u2(s.len() as u16));
    out.extend(s.as_bytes());
    out
}

fn class_ref(i: u16) -> Vec<u8> {
    let mut out = vec![7u8];
    out.extend(u2(i));
    out
}

/// An empty public interface `I` extending `java/lang/Object`, version 52.
fn empty_interface() -> Vec<u8> {
    let mut b = vec![0xCA, 0xFE, 0xBA, 0xBE];
    b.extend(u2(0));
    b.extend(u2(52));
    b.extend(u2(5));
    b.extend(class_ref(2));
    b.extend(utf8("I"));
    b.extend(class_ref(4));
    b.extend(utf8("java/lang/Object"));
    b.extend(u2(0x0601));
    b.extend(u2(1));
    b.extend(u2(3));
    b.extend(u2(0));
    b.extend(u2(0));
    b.extend(u2(0));
    b.extend(u2(0));
    b
}

/// A class whose constant pool holds `extra_cp` after its own four entries,
/// followed by `tail` (fields, methods and attributes, counts included).
fn class_with(extra_cp: &[Vec<u8>], tail: &[u8]) -> Vec<u8> {
    let mut b = vec![0xCA, 0xFE, 0xBA, 0xBE];
    b.extend(u2(0));
    b.extend(u2(52));
    let slots: usize = extra_cp.iter().map(|e| if e[0] == 5 || e[0] == 6 { 2 } else { 1 }).sum();
    b.extend(u2(5 + slots as u16));
    b.extend(class_ref(2));
    b.extend(utf8("A"));
    b.extend(class_ref(4));
    b.extend(utf8("java/lang/Object"));
    for e in extra_cp {
        b.extend(e);
    }
    b.extend(u2(0x0021));
    b.extend(u2(1));
    b.extend(u2(3));
    b.extend(u2(0));
    b.extend(tail);
    b
}

#[test]
fn invalid_magic() {
    let mut bytes = empty_interface();
    bytes[0] = 0;
    bytes[1] = 0;
    bytes[2] = 0;
    bytes[3] = 0;
    let mut parser = Parser::new(&bytes);
    let parse = parser.parse();
    match parse {
        Ok(_) => panic!("Test shouldn't have passed, Expected an Magic error."),
        Err(e) => assert!(matches!(e, ParsingError::Magic), "unexpected error {:?}", e),
    }
}

#[test]
fn tests_invalid_magic() {
    let mut bytes = empty_interface();
    bytes[0] = 0;
    bytes[1] = 0;
    bytes[2] = 0;
    bytes[3] = 0;
    let bytes = bytes.to_vec();
    let mut parser = Parser::new(&bytes);
    match parser.parse() {
        Ok(_) => panic!("expected the invalid magic error"),
        Err(ParsingError::Magic) => {}
        Err(e) => panic!("wrong error: {:?}", e),
    }
}

#[test]
fn issue_9_out_of_bound_indexing() {
    let mut parser = Parser::new(&[]);
    let parse = parser.parse();
    assert!(matches!(parse, Err(ParsingError::EndOfInput)));
}

#[test]
fn issue_10_integer_underflow_while_subtracting() {
    let mut parser = Parser::new(&[202, 254, 186, 190, 255, 255, 255, 1, 0, 0]);
    let parse = parser.parse();
    assert!(matches!(parse, Err(ParsingError::EndOfInput)));
}

#[test]
fn magic_failure_with_arbitrary_tail() {
    let bytes = [0u8, 0, 0, 0, 1, 2, 3, 4, 5, 6, 7, 8, 9];
    let mut parser = Parser::new(&bytes);
    assert!(matches!(parser.parse(), Err(ParsingError::Magic)));
}

#[test]
fn short_input_is_end_of_input() {
    let mut parser = Parser::new(&[0xCA, 0xFE]);
    assert!(matches!(parser.parse(), Err(ParsingError::EndOfInput)));
    let mut parser = Parser::new(&[0, 0, 0]);
    assert!(matches!(parser.parse(), Err(ParsingError::EndOfInput)));
}

#[test]
fn minimal_interface_parses_whole_input() {
    let bytes = empty_interface();
    let mut parser = Parser::new(&bytes);
    let class = parser.parse().expect("parses");
    assert_eq!(parser.offset(), bytes.len());
    assert_eq!(class.major_v.to_u2(), 52);
    assert_eq!(class.minor_v.to_u2(), 0);
    assert_eq!(class.cp.len(), 4);
    assert_eq!(class.access_flags.to_u2() & 0x0600, 0x0600);
    assert_eq!(class.this_class.to_u2(), 1);
    assert_eq!(class.super_class.to_u2(), 3);
    match &class.cp[3] {
        CpNode::Utf8(u) => assert_eq!(u.bytes, b"java/lang/Object".to_vec()),
        _ => panic!("expected a Utf8 entry"),
    }
}

#[test]
fn trailing_bytes_are_rejected() {
    let mut bytes = empty_interface();
    bytes.push(0);
    let mut parser = Parser::new(&bytes);
    assert!(matches!(parser.parse(), Err(ParsingError::TrailingBytes)));
}

#[test]
fn truncated_constant_pool() {
    let mut b = vec![0xCA, 0xFE, 0xBA, 0xBE];
    b.extend(u2(0));
    b.extend(u2(52));
    b.extend(u2(10));
    b.extend(class_ref(2));
    b.extend(utf8("A"));
    b.extend(class_ref(2));
    let mut parser = Parser::new(&b);
    assert!(matches!(parser.parse(), Err(ParsingError::EndOfInput)));
}

#[test]
fn long_takes_two_slots() {
    let mut long = vec![5u8];
    long.extend([0, 0, 0, 1, 0, 0, 0, 2]);
    let mut tail = u2(0);
    tail.extend(u2(0));
    tail.extend(u2(0));
    let bytes = class_with(&[long, utf8("x")], &tail);
    let mut parser = Parser::new(&bytes);
    let class = parser.parse().expect("parses");
    assert_eq!(class.cp.len(), 7);
    assert!(matches!(class.cp[4], CpNode::Long(_)));
    assert!(matches!(class.cp[5], CpNode::Sentinel));
    assert!(matches!(class.cp[6], CpNode::Utf8(_)));
}

#[test]
fn long_in_last_slot_is_rejected() {
    let mut long = vec![5u8];
    long.extend([0, 0, 0, 1, 0, 0, 0, 2]);
    let mut bytes = class_with(&[long], &[]);
    bytes[8] = 0;
    bytes[9] = 6;
    let mut parser = Parser::new(&bytes);
    assert!(matches!(parser.parse(), Err(ParsingError::InvalidConstantPoolLayout)));
}

#[test]
fn unknown_constant_pool_tag() {
    let bytes = class_with(&[vec![2u8, 0, 0]], &[]);
    let mut parser = Parser::new(&bytes);
    assert!(matches!(parser.parse(), Err(ParsingError::ConstantPoolTag(2))));
}

#[test]
fn invalid_utf8_entry() {
    let bytes = class_with(&[vec![1u8, 0, 2, 0xC3, 0x28]], &[]);
    let mut parser = Parser::new(&bytes);
    assert!(matches!(parser.parse(), Err(ParsingError::Utf8Decode)));
}

/// Class attributes: `count` attributes given as raw bytes.
fn class_attributes(extra_cp: &[Vec<u8>], attributes: &[Vec<u8>]) -> Vec<u8> {
    let mut tail = u2(0);
    tail.extend(u2(0));
    tail.extend(u2(attributes.len() as u16));
    for a in attributes {
        tail.extend(a);
    }
    class_with(extra_cp, &tail)
}

fn attribute(name_index: u16, body: &[u8]) -> Vec<u8> {
    let mut out = u2(name_index);
    out.extend((body.len() as u32).to_be_bytes());
    out.extend(body);
    out
}

#[test]
fn source_file_attribute() {
    let bytes = class_attributes(&[utf8("SourceFile"), utf8("A.java")], &[attribute(5, &u2(6))]);
    let mut parser = Parser::new(&bytes);
    let class = parser.parse().expect("parses");
    assert_eq!(class.attributes.len(), 1);
    match &class.attributes[0] {
        Attributes::SourceFile(s) => assert_eq!(s.sourcefile_index.to_u2(), 6),
        _ => panic!("expected SourceFile"),
    }
}

#[test]
fn attribute_name_not_utf8() {
    let bytes = class_attributes(&[], &[attribute(1, &u2(2))]);
    let mut parser = Parser::new(&bytes);
    assert!(matches!(parser.parse(), Err(ParsingError::AttributeNotUtf8)));
    let bytes = class_attributes(&[], &[attribute(0, &u2(2))]);
    let mut parser = Parser::new(&bytes);
    assert!(matches!(parser.parse(), Err(ParsingError::AttributeNotUtf8)));
    let bytes = class_attributes(&[], &[attribute(99, &u2(2))]);
    let mut parser = Parser::new(&bytes);
    assert!(matches!(parser.parse(), Err(ParsingError::AttributeNotUtf8)));
}

#[test]
fn unknown_attribute_name() {
    let bytes = class_attributes(&[utf8("Frobnicate")], &[attribute(5, &[])]);
    let mut parser = Parser::new(&bytes);
    match parser.parse() {
        Err(ParsingError::InvalidAttribute(name)) => assert_eq!(name, b"Frobnicate".to_vec()),
        other => panic!("unexpected {:?}", other),
    }
}

#[test]
fn attribute_length_mismatch() {
    let mut a = u2(5);
    a.extend(3u32.to_be_bytes());
    a.extend(u2(6));
    a.push(0);
    let bytes = class_attributes(&[utf8("SourceFile"), utf8("A.java")], &[a]);
    let mut parser = Parser::new(&bytes);
    assert!(matches!(parser.parse(), Err(ParsingError::AttributeLengthMismatch)));
}

/// A method `m()V` with one Code attribute whose body is `code_body`.
fn class_with_code(code_body: &[u8], extra_cp: &[Vec<u8>]) -> Vec<u8> {
    let mut cp = vec![utf8("Code"), utf8("m"), utf8("()V")];
    cp.extend(extra_cp.iter().cloned());
    let mut tail = u2(0);
    tail.extend(u2(1));
    tail.extend(u2(0x0001));
    tail.extend(u2(6));
    tail.extend(u2(7));
    tail.extend(u2(1));
    tail.extend(attribute(5, code_body));
    tail.extend(u2(0));
    class_with(&cp, &tail)
}

fn code_body(code: &[u8], nested: &[Vec<u8>]) -> Vec<u8> {
    let mut body = u2(1);
    body.extend(u2(1));
    body.extend((code.len() as u32).to_be_bytes());
    body.extend(code);
    body.extend(u2(0));
    body.extend(u2(nested.len() as u16));
    for n in nested {
        body.extend(n);
    }
    body
}

#[test]
fn code_attribute_with_stack_map() {
    let mut smt = u2(3);
    smt.push(10);
    smt.extend([255, 0, 4, 0, 1, 7, 0, 1, 0, 0]);
    smt.extend([252, 0, 2, 1]);
    let body = code_body(&[0xB1], &[attribute(8, &smt)]);
    let bytes = class_with_code(&body, &[utf8("StackMapTable")]);
    let mut parser = Parser::new(&bytes);
    let class = parser.parse().expect("parses");
    match &class.methods[0].attributes[0] {
        Attributes::Code(c) => {
            assert_eq!(c.code, vec![0xB1]);
            match &c.attributes[0] {
                Attributes::StackMapTable(t) => {
                    assert_eq!(t.entries.len(), 3);
                    assert!(matches!(t.entries[0], StackMapFrame::SameFrame(_)));
                    assert!(matches!(t.entries[1], StackMapFrame::FullFrame(_)));
                    assert!(matches!(t.entries[2], StackMapFrame::AppendFrame(_)));
                }
                _ => panic!("expected StackMapTable"),
            }
        }
        _ => panic!("expected Code"),
    }
}

#[test]
fn invalid_frame_type() {
    let mut smt = u2(1);
    smt.push(200);
    let body = code_body(&[0xB1], &[attribute(8, &smt)]);
    let bytes = class_with_code(&body, &[utf8("StackMapTable")]);
    let mut parser = Parser::new(&bytes);
    assert!(matches!(parser.parse(), Err(ParsingError::InvalidFrameType(200))));
}

#[test]
fn invalid_verification_type_tag() {
    let mut smt = u2(1);
    smt.push(64);
    smt.push(9);
    let body = code_body(&[0xB1], &[attribute(8, &smt)]);
    let bytes = class_with_code(&body, &[utf8("StackMapTable")]);
    let mut parser = Parser::new(&bytes);
    assert!(matches!(parser.parse(), Err(ParsingError::InvalidTagVerificationTypeInfo(9))));
}

#[test]
fn annotations_are_decoded() {
    let mut body = u2(1);
    body.extend(u2(6));
    body.extend(u2(2));
    body.extend(u2(6));
    body.push(b'[');
    body.extend(u2(2));
    body.push(b'I');
    body.extend(u2(6));
    body.push(b'@');
    body.extend(u2(6));
    body.extend(u2(0));
    body.extend(u2(6));
    body.push(b'e');
    body.extend(u2(6));
    body.extend(u2(6));
    let bytes = class_attributes(
        &[utf8("RuntimeVisibleAnnotations"), utf8("LA;")],
        &[attribute(5, &body)],
    );
    let mut parser = Parser::new(&bytes);
    let class = parser.parse().expect("parses");
    match &class.attributes[0] {
        Attributes::RuntimeVisibleAnnotations(a) => {
            assert_eq!(a.annotations.len(), 1);
            let pairs = &a.annotations[0].element_value_pairs;
            assert_eq!(pairs.len(), 2);
            match &pairs[0].value {
                ElementValue::ArrayValue(v) => {
                    assert_eq!(v.element_value.len(), 2);
                    assert!(matches!(v.element_value[1], ElementValue::AnnotationValue(_)));
                }
                _ => panic!("expected an array"),
            }
            assert!(matches!(pairs[1].value, ElementValue::EnumConstValue(_)));
        }
        _ => panic!("expected annotations"),
    }
}

#[test]
fn invalid_element_value_tag() {
    let mut body = u2(1);
    body.extend(u2(6));
    body.extend(u2(1));
    body.extend(u2(6));
    body.push(b'x');
    body.extend(u2(6));
    let bytes = class_attributes(
        &[utf8("RuntimeVisibleAnnotations"), utf8("LA;")],
        &[attribute(5, &body)],
    );
    let mut parser = Parser::new(&bytes);
    assert!(matches!(parser.parse(), Err(ParsingError::InvalidElementValue(b'x'))));
}

#[test]
fn deeply_nested_element_values_are_cut_off() {
    let mut value = Vec::new();
    for _ in 0..40 {
        value.push(b'[');
        value.extend(u2(1));
    }
    value.push(b'I');
    value.extend(u2(6));
    let mut body = u2(1);
    body.extend(u2(6));
    body.extend(u2(1));
    body.extend(u2(6));
    body.extend(value);
    let bytes = class_attributes(
        &[utf8("RuntimeVisibleAnnotations"), utf8("LA;")],
        &[attribute(5, &body)],
    );
    let mut parser = Parser::new(&bytes);
    assert!(matches!(parser.parse(), Err(ParsingError::NestingTooDeep)));
}

#[test]
fn type_annotation_with_invalid_target() {
    let mut body = u2(1);
    body.push(0x30);
    let bytes = class_attributes(
        &[utf8("RuntimeVisibleTypeAnnotations")],
        &[attribute(5, &body)],
    );
    let mut parser = Parser::new(&bytes);
    assert!(matches!(parser.parse(), Err(ParsingError::InvalidTargetType(0x30))));
}

#[test]
fn type_annotation_is_decoded() {
    let mut body = u2(1);
    body.push(0x10);
    body.extend(u2(3));
    body.push(1);
    body.extend([3, 0]);
    body.extend(u2(6));
    body.extend(u2(0));
    let bytes = class_attributes(
        &[utf8("RuntimeVisibleTypeAnnotations"), utf8("LA;")],
        &[attribute(5, &body)],
    );
    let mut parser = Parser::new(&bytes);
    let class = parser.parse().expect("parses");
    match &class.attributes[0] {
        Attributes::RuntimeVisibleTypeAnnotations(t) => {
            assert_eq!(t.type_annotation.len(), 1);
            assert_eq!(t.type_annotation[0].target_path.path.len(), 1);
            assert_eq!(t.type_annotation[0].type_index.to_u2(), 6);
        }
        _ => panic!("expected type annotations"),
    }
}

#[test]
fn u2_value_is_big_endian() {
    let bytes = [0x12u8, 0x34, 0xCA, 0xFE, 0xBA, 0xBE];
    let mut parser = Parser::new(&bytes);
    assert_eq!(parser.u2().unwrap().to_u2(), 0x1234);
    assert_eq!(parser.u4().unwrap(), 0xCAFEBABE);
    assert_eq!(parser.offset(), 6);
    assert!(matches!(parser.u1(), Err(ParsingError::EndOfInput)));
}

#[test]
fn pool_cut_short_after_three_entries() {
    let bytes = [
        0xCA, 0xFE, 0xBA, 0xBE, 0x00, 0x00, 0x00, 0x34, 0x00, 0x0A, 0x01, 0x00, 0x01, 0x41, 0x01,
        0x00, 0x01, 0x42, 0x01, 0x00, 0x01, 0x43,
    ];
    let mut parser = Parser::new(&bytes);
    assert!(matches!(parser.parse(), Err(ParsingError::EndOfInput)));
}

#[test]
fn utf8_entry_with_invalid_byte() {
    let bytes = [0x01u8, 0x00, 0x01, 0xFF];
    let mut parser = Parser::new(&bytes);
    assert!(matches!(parser.cp(2), Err(ParsingError::Utf8Decode)));
}

#[test]
fn frame_and_tag_errors_name_the_byte() {
    let mut parser = Parser::new(&[130]);
    assert!(matches!(parser.stackmapframe(), Err(ParsingError::InvalidFrameType(130))));
    let mut parser = Parser::new(&[9]);
    assert!(matches!(parser.verification_type_info(), Err(ParsingError::InvalidTagVerificationTypeInfo(9))));
    let mut parser = Parser::new(&[b'q']);
    assert!(matches!(parser.element_value(4), Err(ParsingError::InvalidElementValue(b'q'))));
    let mut parser = Parser::new(&[0x20]);
    assert!(matches!(parser.type_annotation(4), Err(ParsingError::InvalidTargetType(0x20))));
    let mut parser = Parser::new(&[13]);
    assert!(matches!(parser.cp(2), Err(ParsingError::ConstantPoolTag(13))));
}
