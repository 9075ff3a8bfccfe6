use dbus_message::error::Error;
use dbus_message::message::{
    validate_header_fields, HeaderField, HeaderFieldKind, Message, MessageType,
};
use dbus_message::signature::Type;
use dbus_message::value::{Base, Container, Param, Variant};

fn path(p: &str) -> HeaderField {
    HeaderField::Path(p.to_string())
}

fn member(m: &str) -> HeaderField {
    HeaderField::Member(m.to_string())
}

#[test]
fn call_with_path_and_member_is_valid() {
    let fields = vec![path("/a"), member("Foo")];
    assert_eq!(validate_header_fields(MessageType::Call, &fields), Ok(()));
}

#[test]
fn call_without_member_is_missing_a_field() {
    let fields = vec![path("/a")];
    assert_eq!(
        validate_header_fields(MessageType::Call, &fields),
        Err(Error::MissingRequiredField(MessageType::Call, HeaderFieldKind::Member))
    );
}

#[test]
fn duplicate_reply_serial_is_rejected() {
    let fields = vec![HeaderField::ReplySerial(5), HeaderField::ReplySerial(5)];
    assert_eq!(
        validate_header_fields(MessageType::Reply, &fields),
        Err(Error::DuplicateHeaderField(HeaderFieldKind::ReplySerial))
    );
}

#[test]
fn error_with_name_and_serial_is_valid() {
    let fields = vec![
        HeaderField::ErrorName("org.e.Fail".to_string()),
        HeaderField::ReplySerial(2),
    ];
    assert_eq!(validate_header_fields(MessageType::Error, &fields), Ok(()));
}

#[test]
fn signal_without_interface_is_missing_a_field() {
    let fields = vec![path("/a"), member("Foo")];
    assert_eq!(
        validate_header_fields(MessageType::Signal, &fields),
        Err(Error::MissingRequiredField(MessageType::Signal, HeaderFieldKind::Interface))
    );
}

#[test]
fn optional_fields_are_always_allowed() {
    let fields = vec![
        path("/a"),
        member("Foo"),
        HeaderField::Interface("org.x".to_string()),
        HeaderField::Sender(":1.7".to_string()),
        HeaderField::Destination("org.y".to_string()),
        HeaderField::Signature("ai".to_string()),
        HeaderField::UnixFds(2),
    ];
    assert_eq!(validate_header_fields(MessageType::Call, &fields), Ok(()));
}

#[test]
fn duplicate_wins_over_missing() {
    let fields = vec![path("/a"), path("/b")];
    assert_eq!(
        validate_header_fields(MessageType::Call, &fields),
        Err(Error::DuplicateHeaderField(HeaderFieldKind::Path))
    );
}

#[test]
fn first_second_occurrence_decides_the_duplicate() {
    let fields = vec![path("/a"), member("Foo"), member("Bar"), path("/b")];
    assert_eq!(
        validate_header_fields(MessageType::Call, &fields),
        Err(Error::DuplicateHeaderField(HeaderFieldKind::Member))
    );
}

#[test]
fn missing_fields_are_reported_in_table_order() {
    let empty: Vec<HeaderField> = vec![];
    assert_eq!(
        validate_header_fields(MessageType::Signal, &empty),
        Err(Error::MissingRequiredField(MessageType::Signal, HeaderFieldKind::Path))
    );
    let with_path = vec![path("/a")];
    assert_eq!(
        validate_header_fields(MessageType::Signal, &with_path),
        Err(Error::MissingRequiredField(MessageType::Signal, HeaderFieldKind::Member))
    );
    let none: Vec<HeaderField> = vec![];
    assert_eq!(
        validate_header_fields(MessageType::Error, &none),
        Err(Error::MissingRequiredField(MessageType::Error, HeaderFieldKind::ErrorName))
    );
}

#[test]
fn reply_needs_only_its_serial() {
    let fields = vec![HeaderField::ReplySerial(1)];
    assert_eq!(validate_header_fields(MessageType::Reply, &fields), Ok(()));
    let empty: Vec<HeaderField> = vec![];
    assert_eq!(
        validate_header_fields(MessageType::Reply, &empty),
        Err(Error::MissingRequiredField(MessageType::Reply, HeaderFieldKind::ReplySerial))
    );
}

#[test]
fn message_construction_validates_everything() {
    let fields = vec![path("/a"), member("Foo")];
    let body = vec![Param::Base(Base::Int32(7))];
    let m = Message::new(MessageType::Call, fields, body).unwrap();
    assert_eq!(m.params.len(), 1);
    assert_eq!(m.fields.len(), 2);
}

#[test]
fn message_construction_rejects_bad_headers() {
    let fields = vec![path("/a")];
    assert_eq!(
        Message::new(MessageType::Call, fields, vec![]),
        Err(Error::MissingRequiredField(MessageType::Call, HeaderFieldKind::Member))
    );
}

#[test]
fn message_construction_rejects_bad_scalar() {
    let fields = vec![path("/a"), member("Foo")];
    let body = vec![Param::Base(Base::ObjectPath("not_a_path".to_string()))];
    assert_eq!(
        Message::new(MessageType::Call, fields, body),
        Err(Error::InvalidObjectPath)
    );
}

#[test]
fn message_with_container_body_is_validated() {
    let fields = vec![
        path("/obj"),
        member("Emit"),
        HeaderField::Interface("org.x".to_string()),
    ];
    let entry = Param::Container(Container::DictEntry(
        Base::String("k".to_string()),
        Box::new(Param::Base(Base::Int32(1))),
    ));
    let dict = Param::Container(Container::Array(
        Box::new(Type::DictEntry(Box::new(Type::String), Box::new(Type::Int32))),
        vec![entry],
    ));
    let var = Param::Container(Container::Variant(Box::new(Variant {
        sig: Type::UInt32,
        value: Param::Base(Base::Uint32(9)),
    })));
    let m = Message::new(MessageType::Signal, fields, vec![dict, var]).unwrap();
    assert_eq!(m.validate(), Ok(()));

    let bad_entry = Param::Container(Container::DictEntry(
        Base::String("k".to_string()),
        Box::new(Param::Base(Base::String("v".to_string()))),
    ));
    let bad_dict = Param::Container(Container::Array(
        Box::new(Type::DictEntry(Box::new(Type::String), Box::new(Type::Int32))),
        vec![bad_entry],
    ));
    let fields2 = vec![path("/obj"), member("Emit"), HeaderField::Interface("org.x".to_string())];
    assert_eq!(
        Message::new(MessageType::Signal, fields2, vec![bad_dict]),
        Err(Error::HeterogeneousArray(0))
    );
}

#[test]
fn validating_twice_gives_the_same_result() {
    let fields = vec![path("/a"), member("Foo")];
    let body = vec![Param::Base(Base::Uint32(1))];
    let m = Message::new(MessageType::Call, fields, body).unwrap();
    let first = m.validate();
    let second = m.validate();
    assert_eq!(first, Ok(()));
    assert_eq!(first, second);
}
