//! The message envelope: message kinds, header fields, and the validator
//! that decides which header-field sets make a message of a given kind
//! routable.

use vstd::prelude::*;

use crate::error::Error;
use crate::value::{derive_err, param_scalars_ok, param_valid, Param};

verus! {

/// The closed set of message kinds. The kind decides which header fields are
/// required (see `validate_header_fields`).
#[derive(Copy, Clone, Debug, PartialEq, Eq, Structural)]
pub enum MessageType {
    Signal,
    Error,
    Call,
    Reply,
}

/// Byte order of a wire-encoded message. Wire encoding itself is out of
/// scope here; the marker travels with the envelope.
#[derive(Clone, Copy, Debug, PartialEq, Eq, Structural)]
pub enum ByteOrder {
    LittleEndian,
    BigEndian,
}

/// Flags a message envelope may carry. They do not take part in validation.
#[derive(Clone, Copy, Debug, PartialEq, Eq, Structural)]
pub enum HeaderFlags {
    NoReplyExpected,
    NoAutoStart,
    AllowInteractiveAuthorization,
}

/// A header field together with its value. Each kind may occur at most once
/// per message: the fields form a set keyed by kind, never a plain list.
#[derive(Debug, Clone, PartialEq, Eq)]
pub enum HeaderField {
    Path(String),
    Interface(String),
    Member(String),
    ErrorName(String),
    ReplySerial(u32),
    Destination(String),
    Sender(String),
    Signature(String),
    UnixFds(u32),
}

/// The kind of a header field, without its value. Used to report which kind
/// is duplicated or missing.
#[derive(Copy, Clone, Debug, PartialEq, Eq, Structural)]
pub enum HeaderFieldKind {
    Path,
    Interface,
    Member,
    ErrorName,
    ReplySerial,
    Destination,
    Sender,
    Signature,
    UnixFds,
}

/// The kind of a header field.
pub open spec fn field_kind(f: HeaderField) -> HeaderFieldKind {
    match f {
        HeaderField::Path(_) => HeaderFieldKind::Path,
        HeaderField::Interface(_) => HeaderFieldKind::Interface,
        HeaderField::Member(_) => HeaderFieldKind::Member,
        HeaderField::ErrorName(_) => HeaderFieldKind::ErrorName,
        HeaderField::ReplySerial(_) => HeaderFieldKind::ReplySerial,
        HeaderField::Destination(_) => HeaderFieldKind::Destination,
        HeaderField::Sender(_) => HeaderFieldKind::Sender,
        HeaderField::Signature(_) => HeaderFieldKind::Signature,
        HeaderField::UnixFds(_) => HeaderFieldKind::UnixFds,
    }
}

/// Some field of kind `k` occurs in `fields`.
pub open spec fn has_kind(fields: Seq<HeaderField>, k: HeaderFieldKind) -> bool {
    exists|i: int| 0 <= i < fields.len() && field_kind(fields[i]) == k
}

/// No header-field kind occurs twice.
pub open spec fn no_duplicate_kinds(fields: Seq<HeaderField>) -> bool {
    forall|i: int, j: int|
        0 <= i < j < fields.len() ==> field_kind(fields[i]) != field_kind(fields[j])
}

/// The required-field table: which header-field kinds a message of kind
/// `typ` must carry.
pub open spec fn kind_required(typ: MessageType, k: HeaderFieldKind) -> bool {
    match typ {
        MessageType::Call => k == HeaderFieldKind::Path || k == HeaderFieldKind::Member,
        MessageType::Signal => k == HeaderFieldKind::Path || k == HeaderFieldKind::Member
            || k == HeaderFieldKind::Interface,
        MessageType::Reply => k == HeaderFieldKind::ReplySerial,
        MessageType::Error => k == HeaderFieldKind::ErrorName
            || k == HeaderFieldKind::ReplySerial,
    }
}

/// All header fields required for `typ` are present.
pub open spec fn required_present(typ: MessageType, fields: Seq<HeaderField>) -> bool {
    forall|k: HeaderFieldKind| kind_required(typ, k) ==> has_kind(fields, k)
}

/// A header-field set is valid for a message kind: no kind occurs twice and
/// every required kind is present.
pub open spec fn header_fields_valid(typ: MessageType, fields: Seq<HeaderField>) -> bool {
    no_duplicate_kinds(fields) && required_present(typ, fields)
}

/// Index `j` holds the first repetition in `fields`, and `k` is its kind:
/// the prefix before `j` is duplicate-free and already contains `k`. At most
/// one such `j` exists, so this pins which kind a duplicate report names.
pub open spec fn dup_at(fields: Seq<HeaderField>, j: int, k: HeaderFieldKind) -> bool {
    &&& 0 <= j < fields.len()
    &&& field_kind(fields[j]) == k
    &&& has_kind(fields.subrange(0, j), k)
    &&& no_duplicate_kinds(fields.subrange(0, j))
}

/// The required kind a validation report names when several are absent: the
/// table's order, Path before Member before Interface, ErrorName before
/// ReplySerial. Meaningful only when some required kind is absent.
pub open spec fn first_missing(typ: MessageType, fields: Seq<HeaderField>) -> HeaderFieldKind {
    match typ {
        MessageType::Call => if !has_kind(fields, HeaderFieldKind::Path) {
            HeaderFieldKind::Path
        } else {
            HeaderFieldKind::Member
        },
        MessageType::Signal => if !has_kind(fields, HeaderFieldKind::Path) {
            HeaderFieldKind::Path
        } else if !has_kind(fields, HeaderFieldKind::Member) {
            HeaderFieldKind::Member
        } else {
            HeaderFieldKind::Interface
        },
        MessageType::Reply => HeaderFieldKind::ReplySerial,
        MessageType::Error => if !has_kind(fields, HeaderFieldKind::ErrorName) {
            HeaderFieldKind::ErrorName
        } else {
            HeaderFieldKind::ReplySerial
        },
    }
}

impl HeaderField {
    /// The kind of this field.
    pub fn kind(&self) -> (k: HeaderFieldKind)
        ensures
            k == field_kind(*self),
    {
        match self {
            HeaderField::Path(_) => HeaderFieldKind::Path,
            HeaderField::Interface(_) => HeaderFieldKind::Interface,
            HeaderField::Member(_) => HeaderFieldKind::Member,
            HeaderField::ErrorName(_) => HeaderFieldKind::ErrorName,
            HeaderField::ReplySerial(_) => HeaderFieldKind::ReplySerial,
            HeaderField::Destination(_) => HeaderFieldKind::Destination,
            HeaderField::Sender(_) => HeaderFieldKind::Sender,
            HeaderField::Signature(_) => HeaderFieldKind::Signature,
            HeaderField::UnixFds(_) => HeaderFieldKind::UnixFds,
        }
    }
}

/// Extending a prefix by one field adds exactly that field's kind.
proof fn lemma_has_kind_push(fields: Seq<HeaderField>, i: int, k: HeaderFieldKind)
    requires
        0 <= i < fields.len(),
    ensures
        has_kind(fields.subrange(0, i + 1), k) <==> (has_kind(fields.subrange(0, i), k)
            || field_kind(fields[i]) == k),
{
    let pre = fields.subrange(0, i);
    let pre1 = fields.subrange(0, i + 1);
    if has_kind(pre, k) {
        let j = choose|j: int| 0 <= j < pre.len() && field_kind(pre[j]) == k;
        assert(pre1[j] == fields[j]);
        assert(field_kind(pre1[j]) == k);
    }
    if field_kind(fields[i]) == k {
        assert(pre1[i] == fields[i]);
        assert(field_kind(pre1[i]) == k);
    }
    if has_kind(pre1, k) && !(field_kind(fields[i]) == k) {
        let j = choose|j: int| 0 <= j < pre1.len() && field_kind(pre1[j]) == k;
        assert(pre1[j] == fields[j]);
        assert(j < i);
        assert(pre[j] == fields[j]);
        assert(field_kind(pre[j]) == k);
    }
}

/// Validates a header-field set against a message kind with a single pass:
/// a field kind appearing twice fails at once with `DuplicateHeaderField`,
/// and afterwards every kind the required-field table demands must be
/// present, else `MissingRequiredField` names the first absent one.
pub fn validate_header_fields(msg_type: MessageType, header_fields: &Vec<HeaderField>) -> (r:
    Result<(), Error>)
    ensures
        r is Ok <==> header_fields_valid(msg_type, header_fields@),
        r matches Err(e) ==> (e is DuplicateHeaderField || e is MissingRequiredField),
        r matches Err(e) ==> (e matches Error::DuplicateHeaderField(k) ==> exists|j: int|
            dup_at(header_fields@, j, k)),
        r matches Err(e) ==> (e matches Error::MissingRequiredField(mt, k) ==> mt == msg_type
            && no_duplicate_kinds(header_fields@) && kind_required(msg_type, k) && !has_kind(
            header_fields@,
            k,
        ) && k == first_missing(msg_type, header_fields@)),
{
    let ghost fs = header_fields@;
    let mut have_path = false;
    let mut have_interface = false;
    let mut have_member = false;
    let mut have_errorname = false;
    let mut have_replyserial = false;
    let mut have_destination = false;
    let mut have_sender = false;
    let mut have_signature = false;
    let mut have_unixfds = false;
    let mut i: usize = 0;
    while i < header_fields.len()
        invariant
            fs == header_fields@,
            i <= fs.len(),
            no_duplicate_kinds(fs.subrange(0, i as int)),
            have_path == has_kind(fs.subrange(0, i as int), HeaderFieldKind::Path),
            have_interface == has_kind(fs.subrange(0, i as int), HeaderFieldKind::Interface),
            have_member == has_kind(fs.subrange(0, i as int), HeaderFieldKind::Member),
            have_errorname == has_kind(fs.subrange(0, i as int), HeaderFieldKind::ErrorName),
            have_replyserial == has_kind(fs.subrange(0, i as int), HeaderFieldKind::ReplySerial),
            have_destination == has_kind(fs.subrange(0, i as int), HeaderFieldKind::Destination),
            have_sender == has_kind(fs.subrange(0, i as int), HeaderFieldKind::Sender),
            have_signature == has_kind(fs.subrange(0, i as int), HeaderFieldKind::Signature),
            have_unixfds == has_kind(fs.subrange(0, i as int), HeaderFieldKind::UnixFds),
        decreases fs.len() - i,
    {
        let k = header_fields[i].kind();
        let seen = match k {
            HeaderFieldKind::Path => have_path,
            HeaderFieldKind::Interface => have_interface,
            HeaderFieldKind::Member => have_member,
            HeaderFieldKind::ErrorName => have_errorname,
            HeaderFieldKind::ReplySerial => have_replyserial,
            HeaderFieldKind::Destination => have_destination,
            HeaderFieldKind::Sender => have_sender,
            HeaderFieldKind::Signature => have_signature,
            HeaderFieldKind::UnixFds => have_unixfds,
        };
        if seen {
            proof {
                let pre = fs.subrange(0, i as int);
                let j = choose|j: int| 0 <= j < pre.len() && field_kind(pre[j]) == k;
                assert(pre[j] == fs[j]);
                assert(field_kind(fs[j]) == k && field_kind(fs[i as int]) == k);
                assert(!no_duplicate_kinds(fs));
                assert(dup_at(fs, i as int, k));
            }
            return Err(Error::DuplicateHeaderField(k));
        }
        proof {
            let pre = fs.subrange(0, i as int);
            let pre1 = fs.subrange(0, i as int + 1);
            lemma_has_kind_push(fs, i as int, HeaderFieldKind::Path);
            lemma_has_kind_push(fs, i as int, HeaderFieldKind::Interface);
            lemma_has_kind_push(fs, i as int, HeaderFieldKind::Member);
            lemma_has_kind_push(fs, i as int, HeaderFieldKind::ErrorName);
            lemma_has_kind_push(fs, i as int, HeaderFieldKind::ReplySerial);
            lemma_has_kind_push(fs, i as int, HeaderFieldKind::Destination);
            lemma_has_kind_push(fs, i as int, HeaderFieldKind::Sender);
            lemma_has_kind_push(fs, i as int, HeaderFieldKind::Signature);
            lemma_has_kind_push(fs, i as int, HeaderFieldKind::UnixFds);
            assert(no_duplicate_kinds(pre1)) by {
                assert forall|a: int, b: int| 0 <= a < b < pre1.len() implies field_kind(pre1[a])
                    != field_kind(pre1[b]) by {
                    assert(pre1[a] == fs[a]);
                    assert(pre1[b] == fs[b]);
                    if b < i {
                        assert(pre[a] == fs[a]);
                        assert(pre[b] == fs[b]);
                    } else {
                        assert(b == i);
                        if field_kind(fs[a]) == k {
                            assert(pre[a] == fs[a]);
                            assert(has_kind(pre, k));
                            assert(false);
                        }
                    }
                }
            }
        }
        match k {
            HeaderFieldKind::Path => {
                have_path = true;
            },
            HeaderFieldKind::Interface => {
                have_interface = true;
            },
            HeaderFieldKind::Member => {
                have_member = true;
            },
            HeaderFieldKind::ErrorName => {
                have_errorname = true;
            },
            HeaderFieldKind::ReplySerial => {
                have_replyserial = true;
            },
            HeaderFieldKind::Destination => {
                have_destination = true;
            },
            HeaderFieldKind::Sender => {
                have_sender = true;
            },
            HeaderFieldKind::Signature => {
                have_signature = true;
            },
            HeaderFieldKind::UnixFds => {
                have_unixfds = true;
            },
        }
        i = i + 1;
    }
    proof {
        assert(fs.subrange(0, fs.len() as int) =~= fs);
    }
    let missing: Option<HeaderFieldKind> = match msg_type {
        MessageType::Call => {
            if !have_path {
                Some(HeaderFieldKind::Path)
            } else if !have_member {
                Some(HeaderFieldKind::Member)
            } else {
                None
            }
        },
        MessageType::Signal => {
            if !have_path {
                Some(HeaderFieldKind::Path)
            } else if !have_member {
                Some(HeaderFieldKind::Member)
            } else if !have_interface {
                Some(HeaderFieldKind::Interface)
            } else {
                None
            }
        },
        MessageType::Reply => {
            if !have_replyserial {
                Some(HeaderFieldKind::ReplySerial)
            } else {
                None
            }
        },
        MessageType::Error => {
            if !have_errorname {
                Some(HeaderFieldKind::ErrorName)
            } else if !have_replyserial {
                Some(HeaderFieldKind::ReplySerial)
            } else {
                None
            }
        },
    };
    match missing {
        Some(k) => Err(Error::MissingRequiredField(msg_type, k)),
        None => {
            proof {
                assert forall|k: HeaderFieldKind| kind_required(msg_type, k) implies has_kind(
                    fs,
                    k,
                ) by {}
            }
            Ok(())
        },
    }
}

/// A message envelope: its kind, its header fields (a set keyed by kind),
/// and its body. Built once by `Message::new`, which validates it; nothing
/// mutates it afterwards.
#[derive(Debug, PartialEq, Eq)]
pub struct Message {
    pub typ: MessageType,
    pub fields: Vec<HeaderField>,
    pub params: Vec<Param>,
}

/// The envelope invariant: the header-field set is valid for the kind, and
/// every body value is structurally valid with every scalar meeting its
/// grammar.
pub open spec fn message_valid(m: Message) -> bool {
    &&& header_fields_valid(m.typ, m.fields@)
    &&& forall|i: int|
        0 <= i < m.params@.len() ==> param_valid(#[trigger] m.params@[i]) && param_scalars_ok(
            m.params@[i],
        )
}

/// The error kinds a whole-message validation can report: a header-field
/// fault, a structural fault in a body value, or a scalar-grammar fault.
pub open spec fn message_err(e: Error) -> bool {
    ||| e is DuplicateHeaderField
    ||| e is MissingRequiredField
    ||| derive_err(e)
    ||| e is InvalidObjectPath
    ||| e is SignatureTooLong
    ||| e is UnmatchedDelimiter
    ||| e is InvalidSignature
}

/// Checks the body values from index `i` on: structural validity and the
/// scalar grammars.
fn check_params(ps: &Vec<Param>, i: usize) -> (r: Result<(), Error>)
    requires
        i <= ps@.len(),
    ensures
        r is Ok <==> (forall|j: int|
            i <= j < ps@.len() ==> param_valid(#[trigger] ps@[j]) && param_scalars_ok(ps@[j])),
        r matches Err(e) ==> message_err(e),
    decreases ps@.len() - i,
{
    if i >= ps.len() {
        return Ok(());
    }
    match ps[i].derive_signature() {
        Err(e) => {
            return Err(e);
        },
        Ok(_) => {},
    }
    match ps[i].validate_scalars() {
        Err(e) => {
            return Err(e);
        },
        Ok(()) => {},
    }
    check_params(ps, i + 1)
}

impl Message {
    /// Constructs a message from its kind, header fields and body, rejecting
    /// any combination that breaks the envelope invariant. A constructed
    /// message is immutable and already validated.
    pub fn new(typ: MessageType, fields: Vec<HeaderField>, params: Vec<Param>) -> (r: Result<
        Message,
        Error,
    >)
        ensures
            r matches Ok(m) ==> m.typ == typ && m.fields@ == fields@ && m.params@ == params@,
            r is Ok <==> message_valid((Message { typ, fields, params })),
            r matches Err(e) ==> message_err(e),
    {
        let m = Message { typ, fields, params };
        match m.validate() {
            Ok(()) => Ok(m),
            Err(e) => Err(e),
        }
    }

    /// Validates this message: the verdict depends on the message alone, and
    /// the message is not touched, so validating an already-valid message a
    /// second time succeeds again.
    pub fn validate(&self) -> (r: Result<(), Error>)
        ensures
            r is Ok <==> message_valid(*self),
            r matches Err(e) ==> message_err(e),
    {
        match validate_header_fields(self.typ, &self.fields) {
            Err(e) => {
                return Err(e);
            },
            Ok(()) => {},
        }
        check_params(&self.params, 0)
    }
}

/// Validation is a function of the message alone: any two results that meet
/// `Message::validate`'s contract for the same message agree on success, and
/// on a valid message both are exactly `Ok(())`.
pub proof fn lemma_validate_idempotent(m: Message, r1: Result<(), Error>, r2: Result<(), Error>)
    requires
        r1 is Ok <==> message_valid(m),
        r2 is Ok <==> message_valid(m),
    ensures
        r1 is Ok <==> r2 is Ok,
        message_valid(m) ==> r1 == r2,
{
    if message_valid(m) {
        match r1 {
            Ok(u) => {
                assert(r1 == Ok::<(), Error>(u));
                assert(u == ());
            },
            Err(_) => {
                assert(false);
            },
        }
        match r2 {
            Ok(u) => {
                assert(r2 == Ok::<(), Error>(u));
                assert(u == ());
            },
            Err(_) => {
                assert(false);
            },
        }
    }
}

} // verus!
