use aftermath::class_parser::reader::Parser;
use aftermath::class_parser::ClassFile;
use aftermath::errors::ParsingError;
use aftermath::verification::Verifier;

fn u2(v: u16) -> Vec<u8> {
    v.to_be_bytes().to_vec()
}

fn utf8(s: &str) -> Vec<u8> {
    let mut out = vec![1u8];
    out.extend(u2(s.len() as u16));
    out.extend(s.as_bytes());
    out
}

fn entry(tag: u8, fields: &[u16]) -> Vec<u8> {
    let mut out = vec![tag];
    for f in fields {
        out.extend(u2(*f));
    }
    out
}

fn attribute(name_index: u16, body: &[u8]) -> Vec<u8> {
    let mut out = u2(name_index);
    out.extend((body.len() as u32).to_be_bytes());
    out.extend(body);
    out
}

/// Class file bytes: the header fields, the pool entries, then the member
/// tables as raw bytes with their counts.
fn class_bytes(
    minor: u16,
    major: u16,
    cp: &[Vec<u8>],
    flags: u16,
    this_class: u16,
    super_class: u16,
    rest: &[u8],
) -> Vec<u8> {
    let mut b = vec![0xCA, 0xFE, 0xBA, 0xBE];
    b.extend(u2(minor));
    b.extend(u2(major));
    let slots: usize = cp.iter().map(|e| if e[0] == 5 || e[0] == 6 { 2 } else { 1 }).sum();
    b.extend(u2(slots as u16 + 1));
    for e in cp {
        b.extend(e);
    }
    b.extend(u2(flags));
    b.extend(u2(this_class));
    b.extend(u2(super_class));
    b.extend(u2(0));
    b.extend(rest);
    b
}

fn no_members() -> Vec<u8> {
    let mut r = u2(0);
    r.extend(u2(0));
    r.extend(u2(0));
    r
}

fn parse(bytes: &[u8]) -> ClassFile {
    let mut parser = Parser::new(bytes);
    parser.parse().expect("the class parses")
}

fn verify(bytes: &[u8]) -> Result<ClassFile, ParsingError> {
    Verifier::new(parse(bytes)).verify()
}

fn base_pool() -> Vec<Vec<u8>> {
    vec![entry(7, &[2]), utf8("A"), entry(7, &[4]), utf8("java/lang/Object")]
}

#[test]
fn minimal_interface_verifies() {
    let cp = vec![entry(7, &[2]), utf8("I"), entry(7, &[4]), utf8("java/lang/Object")];
    let bytes = class_bytes(0, 52, &cp, 0x0601, 1, 3, &no_members());
    let class = verify(&bytes).expect("verifies");
    assert_eq!(class.access_flags.to_u2() & 0x0200, 0x0200);
    assert_eq!(class.access_flags.to_u2() & 0x0400, 0x0400);
}

#[test]
fn verifying_twice_gives_the_same_class() {
    let bytes = class_bytes(0, 52, &base_pool(), 0x0021, 1, 3, &no_members());
    let once = verify(&bytes).expect("verifies");
    let cp_len = once.cp.len();
    let twice = Verifier::new(once).verify().expect("verifies again");
    assert_eq!(twice.cp.len(), cp_len);
    assert_eq!(twice.this_class.to_u2(), 1);
}

#[test]
fn module_with_super_class() {
    let cp = vec![entry(7, &[2]), utf8("module-info")];
    let bytes = class_bytes(0, 53, &cp, 0x8000, 1, 1, &no_members());
    assert!(matches!(verify(&bytes), Err(ParsingError::VarsNotZeroAsModule)));
}

#[test]
fn module_needs_module_info_and_version() {
    let cp = vec![entry(7, &[2]), utf8("module-inf0")];
    let bytes = class_bytes(0, 53, &cp, 0x8000, 1, 0, &no_members());
    assert!(matches!(verify(&bytes), Err(ParsingError::ThisClassNotModuleInfoAsModule)));
    let cp = vec![entry(7, &[2]), utf8("module-info")];
    let bytes = class_bytes(0, 52, &cp, 0x8000, 1, 0, &no_members());
    assert!(matches!(verify(&bytes), Err(ParsingError::InvalidVersionAsModule)));
    let bytes = class_bytes(0, 53, &cp, 0x8000, 1, 0, &no_members());
    assert!(matches!(verify(&bytes), Err(ParsingError::InvalidAttributesAsModule)));
    let bytes = class_bytes(0, 53, &cp, 0x8001, 1, 0, &no_members());
    assert!(matches!(verify(&bytes), Err(ParsingError::IllegalFlagsWhileNonInterface)));
}

#[test]
fn module_with_module_attribute_verifies() {
    let cp = vec![entry(7, &[2]), utf8("module-info"), utf8("Module"), utf8("m")];
    let mut module = u2(4);
    module.extend(u2(0));
    module.extend(u2(0));
    for _ in 0..5 {
        module.extend(u2(0));
    }
    let mut rest = u2(0);
    rest.extend(u2(0));
    rest.extend(u2(1));
    rest.extend(attribute(3, &module));
    let bytes = class_bytes(0, 53, &cp, 0x8000, 1, 0, &rest);
    assert!(verify(&bytes).is_ok());
}

#[test]
fn binary_name_with_dot() {
    let cp = vec![entry(7, &[2]), utf8("java.lang.Object")];
    let bytes = class_bytes(0, 52, &cp, 0x0021, 1, 0, &no_members());
    assert!(matches!(verify(&bytes), Err(ParsingError::BinaryNameContainsDot)));
}

#[test]
fn method_handle_kind_1_to_method_ref() {
    let mut cp = vec![vec![15u8, 1, 0, 2]];
    cp.push(entry(10, &[3, 5]));
    cp.push(entry(7, &[4]));
    cp.push(utf8("A"));
    cp.push(entry(12, &[6, 7]));
    cp.push(utf8("m"));
    cp.push(utf8("()V"));
    let bytes = class_bytes(0, 52, &cp, 0x0021, 3, 0, &no_members());
    assert!(matches!(verify(&bytes), Err(ParsingError::MethodHandle1to4NotPointingToFieldRef)));
}

#[test]
fn method_handle_rules() {
    let tail = vec![entry(7, &[4]), utf8("A"), entry(12, &[6, 7]), utf8("m"), utf8("()V")];
    let mut cp = vec![vec![15u8, 5, 0, 2], entry(9, &[3, 5])];
    cp.extend(tail.iter().cloned());
    let bytes = class_bytes(0, 52, &cp, 0x0021, 3, 0, &no_members());
    assert!(matches!(verify(&bytes), Err(ParsingError::MethodHandle5or8NotPointingToMethodRef)));
    let mut cp = vec![vec![15u8, 10, 0, 2], entry(9, &[3, 5])];
    cp.extend(tail.iter().cloned());
    let bytes = class_bytes(0, 52, &cp, 0x0021, 3, 0, &no_members());
    assert!(matches!(verify(&bytes), Err(ParsingError::InvalidReferenceKind)));
    let mut cp = vec![vec![15u8, 1, 0, 2], entry(9, &[3, 5])];
    cp.extend(tail.iter().cloned());
    let bytes = class_bytes(0, 52, &cp, 0x0021, 3, 0, &no_members());
    assert!(verify(&bytes).is_ok());
}

#[test]
fn reference_to_sentinel_is_rejected() {
    let mut long = vec![5u8];
    long.extend([0, 0, 0, 0, 0, 0, 0, 1]);
    let cp = vec![entry(7, &[2]), utf8("A"), long, entry(8, &[4])];
    let bytes = class_bytes(0, 52, &cp, 0x0021, 1, 0, &no_members());
    match verify(&bytes) {
        Err(ParsingError::InvalidIndexFromNodeToNode(src, expected, field)) => {
            assert!(matches!(src, aftermath::errors::CpNodeError::String));
            assert!(matches!(expected, aftermath::errors::CpNodeError::Utf8));
            assert_eq!(field, "string_index");
        }
        other => panic!("unexpected {:?}", other),
    }
}

#[test]
fn reference_out_of_range_is_rejected() {
    let cp = vec![entry(7, &[9])];
    let bytes = class_bytes(0, 52, &cp, 0x0021, 1, 0, &no_members());
    assert!(matches!(verify(&bytes), Err(ParsingError::InvalidIndexFromNodeToNode(..))));
    let cp = vec![entry(7, &[0])];
    let bytes = class_bytes(0, 52, &cp, 0x0021, 1, 0, &no_members());
    assert!(matches!(verify(&bytes), Err(ParsingError::InvalidIndexFromNodeToNode(..))));
}

#[test]
fn version_rules() {
    let bytes = class_bytes(0, 44, &base_pool(), 0x0021, 1, 3, &no_members());
    assert!(matches!(verify(&bytes), Err(ParsingError::InvalidMajorV)));
    let bytes = class_bytes(0, 62, &base_pool(), 0x0021, 1, 3, &no_members());
    assert!(matches!(verify(&bytes), Err(ParsingError::InvalidMajorV)));
    let bytes = class_bytes(1, 56, &base_pool(), 0x0021, 1, 3, &no_members());
    assert!(matches!(verify(&bytes), Err(ParsingError::InvalidMinorV)));
    let bytes = class_bytes(65535, 56, &base_pool(), 0x0021, 1, 3, &no_members());
    assert!(verify(&bytes).is_ok());
    let bytes = class_bytes(3, 55, &base_pool(), 0x0021, 1, 3, &no_members());
    assert!(verify(&bytes).is_ok());
}

#[test]
fn flag_rules() {
    let cases: [(u16, fn(&ParsingError) -> bool); 5] = [
        (0x0200, |e| matches!(e, ParsingError::InterfaceWithoutAbstract)),
        (0x0610, |e| matches!(e, ParsingError::IllegalFlagsWhileInterface)),
        (0x4600, |e| matches!(e, ParsingError::IllegalFlagsWhileInterface)),
        (0x2001, |e| matches!(e, ParsingError::IllegalFlagsWhileNonInterface)),
        (0x0411, |e| matches!(e, ParsingError::FinalAndAbstractWhileNonInterface)),
    ];
    for (flags, expected) in cases {
        let bytes = class_bytes(0, 52, &base_pool(), flags, 1, 3, &no_members());
        let err = verify(&bytes).expect_err("the flags are illegal");
        assert!(expected(&err), "flags {:#x} gave {:?}", flags, err);
    }
    let bytes = class_bytes(0, 52, &base_pool(), 0x2600, 1, 3, &no_members());
    assert!(verify(&bytes).is_ok());
}

#[test]
fn invoke_dynamic_needs_bootstrap_methods() {
    let mut cp = base_pool();
    cp.push(entry(18, &[0, 6]));
    cp.push(entry(12, &[7, 8]));
    cp.push(utf8("run"));
    cp.push(utf8("()V"));
    cp.push(utf8("BootstrapMethods"));
    let bytes = class_bytes(0, 52, &cp, 0x0021, 1, 3, &no_members());
    assert!(matches!(verify(&bytes), Err(ParsingError::InvalidAmountOfBootStrapMethodsInClass)));
    let mut bsm = u2(1);
    bsm.extend(u2(1));
    bsm.extend(u2(0));
    let mut rest = u2(0);
    rest.extend(u2(0));
    rest.extend(u2(1));
    rest.extend(attribute(9, &bsm));
    let bytes = class_bytes(0, 52, &cp, 0x0021, 1, 3, &rest);
    assert!(verify(&bytes).is_ok());
    let mut cp2 = cp.clone();
    cp2[4] = entry(18, &[1, 6]);
    let bytes = class_bytes(0, 52, &cp2, 0x0021, 1, 3, &rest);
    assert!(matches!(
        verify(&bytes),
        Err(ParsingError::BootstrapMethodAttrIndexInInvokeDynamicAttributeIsNotValidIndex)
    ));
    let mut twice = u2(0);
    twice.extend(u2(0));
    twice.extend(u2(2));
    twice.extend(attribute(9, &bsm));
    twice.extend(attribute(9, &bsm));
    let bytes = class_bytes(0, 52, &cp, 0x0021, 1, 3, &twice);
    assert!(matches!(verify(&bytes), Err(ParsingError::InvalidAmountOfBootStrapMethodsInClass)));
}

/// A class with one field and one method, each carrying the given attributes,
/// and the given class attributes. Pool: 5 "SourceFile", 6 "ConstantValue",
/// 7 "Code", 8 "f", 9 "I", 10 Integer, 11 "A.java".
fn member_class(field_attrs: &[Vec<u8>], method_attrs: &[Vec<u8>], class_attrs: &[Vec<u8>]) -> Vec<u8> {
    let mut cp = base_pool();
    cp.push(utf8("SourceFile"));
    cp.push(utf8("ConstantValue"));
    cp.push(utf8("Code"));
    cp.push(utf8("f"));
    cp.push(utf8("I"));
    cp.push(vec![3u8, 0, 0, 0, 7]);
    cp.push(utf8("A.java"));
    let mut rest = u2(1);
    rest.extend(u2(0x0001));
    rest.extend(u2(8));
    rest.extend(u2(9));
    rest.extend(u2(field_attrs.len() as u16));
    for a in field_attrs {
        rest.extend(a);
    }
    rest.extend(u2(1));
    rest.extend(u2(0x0001));
    rest.extend(u2(8));
    rest.extend(u2(9));
    rest.extend(u2(method_attrs.len() as u16));
    for a in method_attrs {
        rest.extend(a);
    }
    rest.extend(u2(class_attrs.len() as u16));
    for a in class_attrs {
        rest.extend(a);
    }
    class_bytes(0, 52, &cp, 0x0021, 1, 3, &rest)
}

fn code(code: &[u8], exceptions: &[[u16; 4]], nested: &[Vec<u8>]) -> Vec<u8> {
    let mut body = u2(1);
    body.extend(u2(1));
    body.extend((code.len() as u32).to_be_bytes());
    body.extend(code);
    body.extend(u2(exceptions.len() as u16));
    for e in exceptions {
        for v in e {
            body.extend(u2(*v));
        }
    }
    body.extend(u2(nested.len() as u16));
    for n in nested {
        body.extend(n);
    }
    attribute(7, &body)
}

#[test]
fn well_placed_members_verify() {
    let bytes = member_class(
        &[attribute(6, &u2(10))],
        &[code(&[0, 0xB1], &[[0, 1, 1, 0]], &[])],
        &[attribute(5, &u2(11))],
    );
    assert!(verify(&bytes).is_ok());
}

#[test]
fn attribute_in_wrong_context() {
    let bytes = member_class(&[], &[], &[attribute(6, &u2(10))]);
    assert!(matches!(verify(&bytes), Err(ParsingError::InvalidClassAttributes)));
    let bytes = member_class(&[attribute(5, &u2(11))], &[], &[]);
    assert!(matches!(verify(&bytes), Err(ParsingError::InvalidFieldInfoAttributes)));
    let bytes = member_class(&[], &[attribute(6, &u2(10))], &[]);
    assert!(matches!(verify(&bytes), Err(ParsingError::InvalidMethodInfoAttributes)));
    let bytes = member_class(&[], &[code(&[0xB1], &[], &[attribute(5, &u2(11))])], &[]);
    assert!(matches!(verify(&bytes), Err(ParsingError::InvalidCodeAttributes)));
}

#[test]
fn record_component_attribute_in_wrong_context() {
    let mut cp = base_pool();
    cp.push(utf8("Record"));
    cp.push(utf8("x"));
    cp.push(utf8("I"));
    cp.push(utf8("ConstantValue"));
    cp.push(vec![3u8, 0, 0, 0, 7]);
    let mut record = u2(1);
    record.extend(u2(6));
    record.extend(u2(7));
    record.extend(u2(1));
    record.extend(attribute(8, &u2(9)));
    let mut rest = u2(0);
    rest.extend(u2(0));
    rest.extend(u2(1));
    rest.extend(attribute(5, &record));
    let bytes = class_bytes(0, 52, &cp, 0x0031, 1, 3, &rest);
    assert!(matches!(verify(&bytes), Err(ParsingError::InvalidRecordComponentInfoAttributes)));
}

#[test]
fn code_rules() {
    let bytes = member_class(&[], &[code(&[], &[], &[])], &[]);
    assert!(matches!(verify(&bytes), Err(ParsingError::CodeAttributeCodeLength)));
    let bytes = member_class(&[], &[code(&[0xB1], &[[0, 1, 0, 0]], &[])], &[]);
    assert!(matches!(verify(&bytes), Err(ParsingError::InvalidIndexesInCodeAttribute)));
    let bytes = member_class(&[], &[code(&[0, 0xB1], &[[0, 1, 1, 5]], &[])], &[]);
    assert!(matches!(
        verify(&bytes),
        Err(ParsingError::InvalidIndexFromAttributeToNode(_, _, "catch_type"))
    ));
}

#[test]
fn source_file_must_name_utf8() {
    let bytes = member_class(&[], &[], &[attribute(5, &u2(10))]);
    assert!(matches!(
        verify(&bytes),
        Err(ParsingError::InvalidIndexFromAttributeToNode(_, _, "sourcefile_index"))
    ));
}

#[test]
fn verify_cp_node_checks_one_entry() {
    let cp = vec![entry(7, &[2]), utf8("a.B")];
    let bytes = class_bytes(0, 52, &cp, 0x0021, 1, 0, &no_members());
    let class = parse(&bytes);
    let verifier = Verifier::new(class);
    let mut parser = Parser::new(&bytes);
    let class = parser.parse().unwrap();
    assert!(matches!(verifier.verify_cp_node(&class.cp[0]), Err(ParsingError::BinaryNameContainsDot)));
    assert!(verifier.verify_cp_node(&class.cp[1]).is_ok());
}

#[test]
fn this_class_must_resolve() {
    let bytes = class_bytes(0, 52, &[], 0x0000, 0, 0, &no_members());
    match verify(&bytes) {
        Err(ParsingError::InvalidIndexFromClassToNode(_, field)) => assert_eq!(field, "this_class"),
        other => panic!("unexpected {:?}", other),
    }
    let bytes = class_bytes(0, 52, &base_pool(), 0x0021, 2, 0, &no_members());
    assert!(matches!(verify(&bytes), Err(ParsingError::InvalidIndexFromClassToNode(_, "this_class"))));
}

#[test]
fn class_indices_must_resolve() {
    let bytes = class_bytes(0, 52, &base_pool(), 0x0021, 1, 2, &no_members());
    assert!(matches!(verify(&bytes), Err(ParsingError::InvalidIndexFromClassToNode(_, "super_class"))));
    let mut b = vec![0xCA, 0xFE, 0xBA, 0xBE];
    b.extend(u2(0));
    b.extend(u2(52));
    b.extend(u2(5));
    for e in base_pool() {
        b.extend(e);
    }
    b.extend(u2(0x0021));
    b.extend(u2(1));
    b.extend(u2(3));
    b.extend(u2(1));
    b.extend(u2(2));
    b.extend(no_members());
    assert!(matches!(verify(&b), Err(ParsingError::InvalidIndexFromClassToNode(_, "interfaces"))));
    let mut rest = u2(1);
    rest.extend(u2(0x0001));
    rest.extend(u2(1));
    rest.extend(u2(2));
    rest.extend(u2(0));
    rest.extend(u2(0));
    rest.extend(u2(0));
    let bytes = class_bytes(0, 52, &base_pool(), 0x0021, 1, 3, &rest);
    assert!(matches!(verify(&bytes), Err(ParsingError::InvalidIndexFromClassToNode(_, "name_index"))));
}

#[test]
fn hand_built_pool_layout_is_checked() {
    let bytes = class_bytes(0, 52, &base_pool(), 0x0021, 1, 3, &no_members());
    let mut class = parse(&bytes);
    class.cp.push(aftermath::class_parser::CpNode::Sentinel);
    assert!(matches!(Verifier::new(class).verify(), Err(ParsingError::InvalidConstantPoolLayout)));
}

#[test]
fn source_file_is_checked_before_code() {
    let bytes = member_class(&[], &[code(&[], &[], &[])], &[attribute(5, &u2(10))]);
    assert!(matches!(
        verify(&bytes),
        Err(ParsingError::InvalidIndexFromAttributeToNode(_, _, "sourcefile_index"))
    ));
}

#[test]
fn ref_to_wrong_name_and_type() {
    let mut cp = base_pool();
    cp.push(entry(9, &[1, 2]));
    let bytes = class_bytes(0, 52, &cp, 0x0021, 1, 3, &no_members());
    assert!(matches!(
        verify(&bytes),
        Err(ParsingError::InvalidIndexFromNodeToNode(_, _, "name_and_type"))
    ));
}
