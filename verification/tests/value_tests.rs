use dbus_message::error::Error;
use dbus_message::signature::{Type, MAX_SIGNATURE_LEN};
use dbus_message::value::{
    validate_array, validate_object_path, validate_signature, Base, Container, Param, Variant,
};

fn int_val(v: i32) -> Param {
    Param::Base(Base::Int32(v))
}

fn string(v: &str) -> Param {
    Param::Base(Base::String(v.to_string()))
}

fn sig_of(p: &Param) -> String {
    let t = p.derive_signature().unwrap();
    Type::to_string(&vec![t])
}

#[test]
fn heterogeneous_array_names_first_offender() {
    let arr = Param::Container(Container::Array(
        Box::new(Type::Int32),
        vec![int_val(1), int_val(2), string("x")],
    ));
    assert_eq!(arr.derive_signature(), Err(Error::HeterogeneousArray(2)));
}

#[test]
fn homogeneous_array_derives_ai() {
    let arr = Param::Container(Container::Array(Box::new(Type::Int32), vec![int_val(1), int_val(2)]));
    assert_eq!(sig_of(&arr), "ai");
}

#[test]
fn empty_array_keeps_declared_element_type() {
    let arr = Param::Container(Container::Array(Box::new(Type::String), vec![]));
    assert_eq!(sig_of(&arr), "as");
}

#[test]
fn validate_array_flags_first_offender() {
    let elems = vec![int_val(1), int_val(2), string("x")];
    assert_eq!(validate_array(&elems), Err(Error::HeterogeneousArray(2)));
    let ok = vec![int_val(1), int_val(2)];
    assert_eq!(validate_array(&ok), Ok(()));
    let empty: Vec<Param> = vec![];
    assert_eq!(validate_array(&empty), Ok(()));
}

#[test]
fn struct_with_bare_dict_entry_is_rejected() {
    let entry = Container::DictEntry(Base::String("k".to_string()), Box::new(int_val(1)));
    let st = Param::Container(Container::Struct(vec![Param::Container(entry)]));
    assert_eq!(st.derive_signature(), Err(Error::DictEntryNotInArray));
}

#[test]
fn array_of_dict_entries_derives_a_si() {
    let entry = Param::Container(Container::DictEntry(
        Base::String("k".to_string()),
        Box::new(int_val(7)),
    ));
    let arr = Param::Container(Container::Array(
        Box::new(Type::DictEntry(Box::new(Type::String), Box::new(Type::Int32))),
        vec![entry],
    ));
    assert_eq!(sig_of(&arr), "a{si}");
}

#[test]
fn bare_dict_entry_value_is_rejected() {
    let entry = Param::Container(Container::DictEntry(
        Base::String("k".to_string()),
        Box::new(int_val(7)),
    ));
    assert_eq!(entry.derive_signature(), Err(Error::DictEntryNotInArray));
}

#[test]
fn empty_struct_value_is_rejected() {
    let st = Param::Container(Container::Struct(vec![]));
    assert_eq!(st.derive_signature(), Err(Error::EmptyStructNotAllowed));
}

#[test]
fn struct_value_derives_field_sequence() {
    let st = Param::Container(Container::Struct(vec![int_val(1), string("x"), int_val(2)]));
    assert_eq!(sig_of(&st), "(isi)");
}

#[test]
fn variant_with_matching_signature_derives_v() {
    let var = Param::Container(Container::Variant(Box::new(Variant {
        sig: Type::Int32,
        value: int_val(3),
    })));
    assert_eq!(sig_of(&var), "v");
}

#[test]
fn variant_with_wrong_signature_is_rejected() {
    let var = Param::Container(Container::Variant(Box::new(Variant {
        sig: Type::String,
        value: int_val(3),
    })));
    assert_eq!(var.derive_signature(), Err(Error::InvalidVariantSignature));
}

#[test]
fn validate_against_accepts_matching_type() {
    let arr = Param::Container(Container::Array(Box::new(Type::Int32), vec![int_val(1)]));
    let expected = Type::Array(Box::new(Type::Int32));
    assert_eq!(arr.validate_against(&expected), Ok(()));
}

#[test]
fn validate_against_reports_both_signatures() {
    let v = int_val(1);
    match v.validate_against(&Type::String) {
        Err(Error::TypeMismatch(expected, actual)) => {
            assert_eq!(expected, "s");
            assert_eq!(actual, "i");
        }
        other => panic!("expected a type mismatch, got {:?}", other),
    }
}

#[test]
fn make_signature_appends_letters() {
    let mut buf = String::new();
    Base::Boolean(true).make_signature(&mut buf);
    Base::Int32(1).make_signature(&mut buf);
    Base::Uint32(1).make_signature(&mut buf);
    Base::ObjectPath("/".to_string()).make_signature(&mut buf);
    Base::String(String::new()).make_signature(&mut buf);
    Base::Signature("i".to_string()).make_signature(&mut buf);
    assert_eq!(buf, "ciuosg");
}

#[test]
fn make_signature_of_containers() {
    let mut buf = String::new();
    let st = Param::Container(Container::Struct(vec![int_val(1), string("x")]));
    st.make_signature(&mut buf);
    let entry = Container::DictEntry(Base::String("k".to_string()), Box::new(int_val(1)));
    entry.make_signature(&mut buf);
    let var = Container::Variant(Box::new(Variant { sig: Type::Int32, value: int_val(1) }));
    var.make_signature(&mut buf);
    let arr = Container::Array(Box::new(Type::UnixFd), vec![]);
    arr.make_signature(&mut buf);
    assert_eq!(buf, "(is){si}vah");
}

#[test]
fn object_path_accepts_root_and_segments() {
    assert_eq!(validate_object_path("/"), Ok(()));
    assert_eq!(validate_object_path("/a"), Ok(()));
    assert_eq!(validate_object_path("/org/freedesktop/DBus_1"), Ok(()));
}

#[test]
fn object_path_rejects_bad_shapes() {
    assert_eq!(validate_object_path(""), Err(Error::InvalidObjectPath));
    assert_eq!(validate_object_path("a"), Err(Error::InvalidObjectPath));
    assert_eq!(validate_object_path("/a/"), Err(Error::InvalidObjectPath));
    assert_eq!(validate_object_path("//"), Err(Error::InvalidObjectPath));
    assert_eq!(validate_object_path("/a//b"), Err(Error::InvalidObjectPath));
    assert_eq!(validate_object_path("/a-b"), Err(Error::InvalidObjectPath));
    assert_eq!(validate_object_path("/caf\u{e9}"), Err(Error::InvalidObjectPath));
}

#[test]
fn signature_scalar_is_parsed() {
    assert_eq!(validate_signature("a{sv}"), Ok(()));
    assert!(matches!(validate_signature("("), Err(Error::UnmatchedDelimiter)));
    assert!(matches!(validate_signature(""), Err(Error::InvalidSignature(0))));
    let long = "i".repeat(MAX_SIGNATURE_LEN + 1);
    assert_eq!(validate_signature(&long), Err(Error::SignatureTooLong));
}

#[test]
fn scalar_validation_walks_the_tree() {
    let bad = Param::Container(Container::Struct(vec![Param::Base(Base::ObjectPath(
        "no_slash".to_string(),
    ))]));
    assert_eq!(bad.validate_scalars(), Err(Error::InvalidObjectPath));
    let good = Param::Container(Container::Struct(vec![Param::Base(Base::ObjectPath(
        "/ok".to_string(),
    ))]));
    assert_eq!(good.validate_scalars(), Ok(()));
}

#[test]
fn checked_scalar_constructors() {
    assert_eq!(
        Base::object_path("/a/b".to_string()),
        Ok(Base::ObjectPath("/a/b".to_string()))
    );
    assert_eq!(
        Base::object_path("bad".to_string()),
        Err(Error::InvalidObjectPath)
    );
    assert_eq!(
        Base::signature("a{sv}".to_string()),
        Ok(Base::Signature("a{sv}".to_string()))
    );
    assert!(matches!(
        Base::signature("(".to_string()),
        Err(Error::UnmatchedDelimiter)
    ));
}

#[test]
fn first_invalid_element_error_wins_over_later_mismatch() {
    let bad_inner = Param::Container(Container::Struct(vec![]));
    let elems = vec![int_val(1), bad_inner, string("x")];
    assert_eq!(validate_array(&elems), Err(Error::EmptyStructNotAllowed));
}

#[test]
fn nested_array_homogeneity_is_checked_deep() {
    let inner_bad = Param::Container(Container::Array(Box::new(Type::Int32), vec![string("x")]));
    let outer = Param::Container(Container::Array(
        Box::new(Type::Array(Box::new(Type::Int32))),
        vec![inner_bad],
    ));
    assert_eq!(outer.derive_signature(), Err(Error::HeterogeneousArray(0)));
}
