use dbus_message::error::Error;
use dbus_message::signature::{Type, TypeList, MAX_SIGNATURE_LEN};

fn boxed(t: Type) -> Box<Type> {
    Box::new(t)
}

fn fields2(a: Type, b: Type) -> TypeList {
    TypeList::Cons(
        Box::new(a),
        Box::new(TypeList::Cons(Box::new(b), Box::new(TypeList::Nil))),
    )
}

fn fields1(a: Type) -> TypeList {
    TypeList::Cons(Box::new(a), Box::new(TypeList::Nil))
}

#[test]
fn parse_basic_kinds() {
    let ts = Type::parse("ciusogh", MAX_SIGNATURE_LEN).unwrap();
    assert_eq!(
        ts,
        vec![
            Type::Boolean,
            Type::Int32,
            Type::UInt32,
            Type::String,
            Type::ObjectPath,
            Type::Signature,
            Type::UnixFd,
        ]
    );
}

#[test]
fn parse_variant_marker() {
    assert_eq!(Type::parse("v", MAX_SIGNATURE_LEN).unwrap(), vec![Type::Variant]);
}

#[test]
fn parse_array_of_int() {
    let ts = Type::parse("ai", MAX_SIGNATURE_LEN).unwrap();
    assert_eq!(ts, vec![Type::Array(boxed(Type::Int32))]);
}

#[test]
fn parse_struct_of_two() {
    let ts = Type::parse("(is)", MAX_SIGNATURE_LEN).unwrap();
    assert_eq!(ts, vec![Type::Struct(fields2(Type::Int32, Type::String))]);
}

#[test]
fn parse_dictionary() {
    let ts = Type::parse("a{sv}", MAX_SIGNATURE_LEN).unwrap();
    assert_eq!(
        ts,
        vec![Type::Array(boxed(Type::DictEntry(
            boxed(Type::String),
            boxed(Type::Variant)
        )))]
    );
}

#[test]
fn parse_nested_containers() {
    let ts = Type::parse("a{s(ii)}", MAX_SIGNATURE_LEN).unwrap();
    let inner = Type::Struct(fields2(Type::Int32, Type::Int32));
    assert_eq!(
        ts,
        vec![Type::Array(boxed(Type::DictEntry(boxed(Type::String), boxed(inner))))]
    );
}

#[test]
fn parse_dict_after_nested_arrays() {
    let ts = Type::parse("aa{si}", MAX_SIGNATURE_LEN).unwrap();
    let entry = Type::DictEntry(boxed(Type::String), boxed(Type::Int32));
    assert_eq!(ts, vec![Type::Array(boxed(Type::Array(boxed(entry))))]);
}

#[test]
fn print_then_parse_gives_tree_back() {
    let t = Type::Struct(fields2(
        Type::Array(boxed(Type::DictEntry(boxed(Type::UInt32), boxed(Type::Variant)))),
        Type::Struct(fields1(Type::ObjectPath)),
    ));
    let printed = Type::to_string(&vec![t]);
    assert_eq!(printed, "(a{uv}(o))");
    let reparsed = Type::parse(&printed, MAX_SIGNATURE_LEN).unwrap();
    let t_again = Type::Struct(fields2(
        Type::Array(boxed(Type::DictEntry(boxed(Type::UInt32), boxed(Type::Variant)))),
        Type::Struct(fields1(Type::ObjectPath)),
    ));
    assert_eq!(reparsed, vec![t_again]);
}

#[test]
fn parse_then_print_gives_string_back() {
    for s in ["i", "ai", "a{sv}", "(iu)", "a{s(ii)}", "vvs", "(a{oc})", "aah", "g(s)o"] {
        let ts = Type::parse(s, MAX_SIGNATURE_LEN).unwrap();
        assert_eq!(Type::to_string(&ts), s);
    }
}

#[test]
fn parse_rejects_empty_input() {
    assert_eq!(Type::parse("", MAX_SIGNATURE_LEN), Err(Error::InvalidSignature(0)));
}

#[test]
fn parse_rejects_unclosed_struct() {
    assert_eq!(Type::parse("(", MAX_SIGNATURE_LEN), Err(Error::UnmatchedDelimiter));
}

#[test]
fn parse_rejects_array_without_element() {
    assert_eq!(Type::parse("a", MAX_SIGNATURE_LEN), Err(Error::InvalidSignature(1)));
}

#[test]
fn parse_rejects_empty_struct() {
    assert_eq!(Type::parse("()", MAX_SIGNATURE_LEN), Err(Error::InvalidSignature(1)));
}

#[test]
fn parse_rejects_unknown_letter() {
    assert!(matches!(
        Type::parse("z", MAX_SIGNATURE_LEN),
        Err(Error::InvalidSignature(0))
    ));
}

#[test]
fn parse_rejects_trailing_delimiter() {
    assert!(matches!(
        Type::parse("i)", MAX_SIGNATURE_LEN),
        Err(Error::InvalidSignature(1))
    ));
}

#[test]
fn parse_rejects_dict_outside_array() {
    assert!(matches!(
        Type::parse("{si}", MAX_SIGNATURE_LEN),
        Err(Error::InvalidSignature(0))
    ));
}

#[test]
fn parse_rejects_dict_with_container_key() {
    assert!(matches!(
        Type::parse("a{vi}", MAX_SIGNATURE_LEN),
        Err(Error::InvalidSignature(2))
    ));
}

#[test]
fn parse_rejects_unclosed_dict() {
    assert_eq!(Type::parse("a{si", MAX_SIGNATURE_LEN), Err(Error::UnmatchedDelimiter));
}

#[test]
fn parse_enforces_length_bound() {
    let long = "i".repeat(MAX_SIGNATURE_LEN + 1);
    assert_eq!(Type::parse(&long, MAX_SIGNATURE_LEN), Err(Error::SignatureTooLong));
    let at_bound = "i".repeat(MAX_SIGNATURE_LEN);
    assert!(Type::parse(&at_bound, MAX_SIGNATURE_LEN).is_ok());
}

#[test]
fn parse_respects_caller_bound() {
    assert_eq!(Type::parse("ii", 1), Err(Error::SignatureTooLong));
    assert!(Type::parse("ii", 2).is_ok());
}

#[test]
fn deeply_nested_signature_round_trips() {
    let s = "a(a{s(aiv)}h)";
    let ts = Type::parse(s, MAX_SIGNATURE_LEN).unwrap();
    assert_eq!(Type::to_string(&ts), s);
    let reparsed = Type::parse(&Type::to_string(&ts), MAX_SIGNATURE_LEN).unwrap();
    assert_eq!(reparsed, ts);
}

#[test]
fn to_string_of_each_kind() {
    assert_eq!(Type::to_string(&vec![Type::Boolean]), "c");
    assert_eq!(Type::to_string(&vec![Type::Int32]), "i");
    assert_eq!(Type::to_string(&vec![Type::UInt32]), "u");
    assert_eq!(Type::to_string(&vec![Type::String]), "s");
    assert_eq!(Type::to_string(&vec![Type::ObjectPath]), "o");
    assert_eq!(Type::to_string(&vec![Type::Signature]), "g");
    assert_eq!(Type::to_string(&vec![Type::UnixFd]), "h");
    assert_eq!(Type::to_string(&vec![Type::Variant]), "v");
}
