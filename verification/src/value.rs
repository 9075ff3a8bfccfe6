//! The value model: scalar and container values that mirror the type
//! algebra, derive their own signatures bottom-up, and are validated
//! against expected types.
//!
//! A value is structurally valid when every array is homogeneous (each
//! element's signature equals the array's element type), every struct has at
//! least one field, no bare dict entry stands outside an array, and every
//! variant's declared signature describes its inner value. Object-path and
//! signature-string scalars additionally carry their own grammar, checked at
//! construction time of the message, not during signature derivation.

use vstd::prelude::*;
use vstd::string::StringExecFns;

use crate::error::Error;
use crate::signature::{
    check_elem_type, check_type_general, clone_type, elem_type_error, is_basic,
    is_valid_signature, lemma_print_injective, lemma_wf_type_elem, print_list, print_type,
    print_types, type_eq, wf_elem, wf_list, wf_type, write_type, Type, TypeList,
    MAX_SIGNATURE_LEN,
};

verus! {

/// A scalar (basic) value.
#[derive(Debug, Clone, PartialEq, Eq)]
pub enum Base {
    Int32(i32),
    Uint32(u32),
    String(String),
    Signature(String),
    ObjectPath(String),
    Boolean(bool),
}

/// A container value. An array carries its element type explicitly, so an
/// empty array still has a signature.
#[derive(Debug, PartialEq, Eq)]
pub enum Container {
    Array(Box<Type>, Vec<Param>),
    Struct(Vec<Param>),
    DictEntry(Base, Box<Param>),
    Variant(Box<Variant>),
}

/// A value carrying its own signature; the outer signature sees only the
/// `v` marker.
#[derive(Debug, PartialEq, Eq)]
pub struct Variant {
    pub sig: Type,
    pub value: Param,
}

/// A value: a scalar or a container.
#[derive(Debug, PartialEq, Eq)]
pub enum Param {
    Base(Base),
    Container(Container),
}

/// The letter of the basic kind a scalar value belongs to.
pub open spec fn base_code(b: Base) -> char {
    match b {
        Base::Boolean(_) => 'c',
        Base::Int32(_) => 'i',
        Base::Uint32(_) => 'u',
        Base::ObjectPath(_) => 'o',
        Base::String(_) => 's',
        Base::Signature(_) => 'g',
    }
}

/// The basic kind a scalar value belongs to.
pub open spec fn base_type(b: Base) -> Type {
    match b {
        Base::Boolean(_) => Type::Boolean,
        Base::Int32(_) => Type::Int32,
        Base::Uint32(_) => Type::UInt32,
        Base::ObjectPath(_) => Type::ObjectPath,
        Base::String(_) => Type::String,
        Base::Signature(_) => Type::Signature,
    }
}

/// The signature a value presents to its surroundings, as a string.
pub open spec fn sig_of_param(p: Param) -> Seq<char>
    decreases p, 0int,
{
    match p {
        Param::Base(b) => seq![base_code(b)],
        Param::Container(c) => sig_of_container(c),
    }
}

/// The signature of a container value.
pub open spec fn sig_of_container(c: Container) -> Seq<char>
    decreases c, 0int,
{
    match c {
        Container::Array(ty, _) => seq!['a'] + print_type(*ty),
        Container::Struct(fs) => seq!['('] + sig_of_params(fs@) + seq![')'],
        Container::DictEntry(k, v) => seq!['{'] + seq![base_code(k)] + sig_of_param(*v) + seq![
            '}',
        ],
        Container::Variant(_) => seq!['v'],
    }
}

/// The concatenated signatures of a sequence of values.
pub open spec fn sig_of_params(ps: Seq<Param>) -> Seq<char>
    decreases ps,
{
    if ps.len() == 0 {
        Seq::<char>::empty()
    } else {
        sig_of_param(ps[0]) + sig_of_params(ps.subrange(1, ps.len() as int))
    }
}

/// Structural validity of a value in a general position: a bare dict entry
/// is not valid here.
pub open spec fn param_valid(p: Param) -> bool
    decreases p, 1int,
{
    match p {
        Param::Base(_) => true,
        Param::Container(c) => container_valid(c),
    }
}

/// Structural validity of a container in a general position.
pub open spec fn container_valid(c: Container) -> bool
    decreases c, 2int,
{
    match c {
        Container::Array(ty, elems) => wf_elem(*ty) && forall|i: int|
            0 <= i < elems@.len() ==> elem_valid(#[trigger] elems@[i]) && sig_of_param(elems@[i])
                == print_type(*ty),
        Container::Struct(fs) => fs@.len() > 0 && forall|i: int|
            0 <= i < fs@.len() ==> param_valid(#[trigger] fs@[i]),
        Container::DictEntry(_, _) => false,
        Container::Variant(v) => wf_type(v.sig) && param_valid(v.value) && sig_of_param(v.value)
            == print_type(v.sig),
    }
}

/// Structural validity of a value standing as an array element: here, and
/// only here, a dict entry is valid.
pub open spec fn elem_valid(p: Param) -> bool
    decreases p, 2int,
{
    match p {
        Param::Container(Container::DictEntry(_, v)) => param_valid(*v),
        _ => param_valid(p),
    }
}

/// The grammar constraints an object-path or signature scalar carries
/// beyond its kind.
pub open spec fn base_scalars_ok(b: Base) -> bool {
    match b {
        Base::ObjectPath(s) => is_valid_object_path(s@),
        Base::Signature(s) => s@.len() <= MAX_SIGNATURE_LEN && is_valid_signature(s@),
        _ => true,
    }
}

/// Every scalar in the value tree meets its grammar.
pub open spec fn param_scalars_ok(p: Param) -> bool
    decreases p, 0int,
{
    match p {
        Param::Base(b) => base_scalars_ok(b),
        Param::Container(c) => container_scalars_ok(c),
    }
}

/// Every scalar below the container meets its grammar.
pub open spec fn container_scalars_ok(c: Container) -> bool
    decreases c, 1int,
{
    match c {
        Container::Array(_, elems) => forall|i: int|
            0 <= i < elems@.len() ==> param_scalars_ok(#[trigger] elems@[i]),
        Container::Struct(fs) => forall|i: int|
            0 <= i < fs@.len() ==> param_scalars_ok(#[trigger] fs@[i]),
        Container::DictEntry(k, v) => base_scalars_ok(k) && param_scalars_ok(*v),
        Container::Variant(v) => param_scalars_ok(v.value),
    }
}

/// `c` is a character allowed inside an object-path segment.
pub open spec fn is_path_char(c: char) -> bool {
    ||| 'a' as u32 <= c as u32 && c as u32 <= 'z' as u32
    ||| 'A' as u32 <= c as u32 && c as u32 <= 'Z' as u32
    ||| '0' as u32 <= c as u32 && c as u32 <= '9' as u32
    ||| c == '_'
}

/// The object-path grammar: `/`-separated non-empty segments of restricted
/// ASCII characters, starting at the root, with no trailing slash except on
/// the root path itself.
pub open spec fn is_valid_object_path(s: Seq<char>) -> bool {
    &&& s.len() >= 1
    &&& s[0] == '/'
    &&& (s.len() == 1 || s[s.len() - 1] != '/')
    &&& forall|i: int|
        0 < i < s.len() ==> (is_path_char(#[trigger] s[i]) || (s[i] == '/' && s[i - 1] != '/'))
}

/// Checks the object-path grammar.
pub fn validate_object_path(op: &str) -> (r: Result<(), Error>)
    ensures
        r is Ok <==> is_valid_object_path(op@),
        r is Err ==> r == Err::<(), Error>(Error::InvalidObjectPath),
{
    let n = op.unicode_len();
    if n == 0 {
        return Err(Error::InvalidObjectPath);
    }
    if op.get_char(0) != '/' {
        return Err(Error::InvalidObjectPath);
    }
    if n == 1 {
        return Ok(());
    }
    if op.get_char(n - 1) == '/' {
        return Err(Error::InvalidObjectPath);
    }
    let mut i: usize = 1;
    while i < n
        invariant
            n == op@.len(),
            1 <= i <= n,
            2 <= n,
            op@[0] == '/',
            op@[n - 1] != '/',
            forall|j: int|
                0 < j < i ==> (is_path_char(#[trigger] op@[j]) || (op@[j] == '/' && op@[j - 1]
                    != '/')),
        decreases n - i,
    {
        let c = op.get_char(i);
        let u = c as u32;
        let word = (u >= 'a' as u32 && u <= 'z' as u32) || (u >= 'A' as u32 && u <= 'Z' as u32)
            || (u >= '0' as u32 && u <= '9' as u32) || c == '_';
        if word {
            i = i + 1;
        } else if c == '/' {
            if op.get_char(i - 1) == '/' {
                return Err(Error::InvalidObjectPath);
            }
            i = i + 1;
        } else {
            return Err(Error::InvalidObjectPath);
        }
    }
    Ok(())
}

/// Checks that a string is a syntactically valid signature within the
/// default length bound.
pub fn validate_signature(sig: &str) -> (r: Result<(), Error>)
    ensures
        r is Ok <==> (sig@.len() <= MAX_SIGNATURE_LEN && is_valid_signature(sig@)),
        r matches Err(e) ==> (e is SignatureTooLong || e is UnmatchedDelimiter
            || e is InvalidSignature),
{
    match Type::parse(sig, MAX_SIGNATURE_LEN) {
        Ok(_) => Ok(()),
        Err(e) => Err(e),
    }
}

impl Base {
    /// The `Type` this scalar belongs to.
    pub fn derived_type(&self) -> (t: Type)
        ensures
            t == base_type(*self),
            is_basic(t),
            wf_type(t),
            print_type(t) == seq![base_code(*self)],
    {
        match self {
            Base::Boolean(_) => Type::Boolean,
            Base::Int32(_) => Type::Int32,
            Base::Uint32(_) => Type::UInt32,
            Base::ObjectPath(_) => Type::ObjectPath,
            Base::String(_) => Type::String,
            Base::Signature(_) => Type::Signature,
        }
    }

    /// Appends this scalar's one-letter signature to `buf`.
    pub fn make_signature(&self, buf: &mut String)
        ensures
            final(buf)@ == old(buf)@ + seq![base_code(*self)],
    {
        match self {
            Base::Boolean(_) => {
                buf.append("c");
                proof {
                    reveal_strlit("c");
                    assert(final(buf)@ =~= old(buf)@ + seq![base_code(*self)]);
                }
            },
            Base::Int32(_) => {
                buf.append("i");
                proof {
                    reveal_strlit("i");
                    assert(final(buf)@ =~= old(buf)@ + seq![base_code(*self)]);
                }
            },
            Base::Uint32(_) => {
                buf.append("u");
                proof {
                    reveal_strlit("u");
                    assert(final(buf)@ =~= old(buf)@ + seq![base_code(*self)]);
                }
            },
            Base::ObjectPath(_) => {
                buf.append("o");
                proof {
                    reveal_strlit("o");
                    assert(final(buf)@ =~= old(buf)@ + seq![base_code(*self)]);
                }
            },
            Base::String(_) => {
                buf.append("s");
                proof {
                    reveal_strlit("s");
                    assert(final(buf)@ =~= old(buf)@ + seq![base_code(*self)]);
                }
            },
            Base::Signature(_) => {
                buf.append("g");
                proof {
                    reveal_strlit("g");
                    assert(final(buf)@ =~= old(buf)@ + seq![base_code(*self)]);
                }
            },
        }
    }

    /// Builds an object-path scalar, rejecting at construction time any text
    /// that breaks the object-path grammar.
    pub fn object_path(text: String) -> (r: Result<Base, Error>)
        ensures
            r matches Ok(b) ==> b == Base::ObjectPath(text) && base_scalars_ok(b),
            r is Ok <==> is_valid_object_path(text@),
            r matches Err(e) ==> e == Error::InvalidObjectPath,
    {
        match validate_object_path(text.as_str()) {
            Ok(()) => Ok(Base::ObjectPath(text)),
            Err(e) => Err(e),
        }
    }

    /// Builds a signature-string scalar, rejecting at construction time any
    /// text that does not parse as a signature within the default bound.
    pub fn signature(text: String) -> (r: Result<Base, Error>)
        ensures
            r matches Ok(b) ==> b == Base::Signature(text) && base_scalars_ok(b),
            r is Ok <==> (text@.len() <= MAX_SIGNATURE_LEN && is_valid_signature(text@)),
            r matches Err(e) ==> (e is SignatureTooLong || e is UnmatchedDelimiter
                || e is InvalidSignature),
    {
        match validate_signature(text.as_str()) {
            Ok(()) => Ok(Base::Signature(text)),
            Err(e) => Err(e),
        }
    }

    /// Checks the extra grammar an object-path or signature scalar carries.
    pub fn validate(&self) -> (r: Result<(), Error>)
        ensures
            r is Ok <==> base_scalars_ok(*self),
            r matches Err(e) ==> (e is InvalidObjectPath || e is SignatureTooLong
                || e is UnmatchedDelimiter || e is InvalidSignature),
    {
        match self {
            Base::ObjectPath(s) => validate_object_path(s.as_str()),
            Base::Signature(s) => validate_signature(s.as_str()),
            _ => Ok(()),
        }
    }
}

/// The fault a derivation walk reports for a structurally invalid value:
/// the first one in traversal order. On a valid value the result carries no
/// meaning; no contract consults it there.
pub open spec fn param_error(p: Param) -> Error
    decreases p, 1int,
{
    match p {
        Param::Base(_) => Error::DictEntryNotInArray,
        Param::Container(c) => container_error(c),
    }
}

/// The fault a derivation walk reports for an invalid container; on a valid
/// one the value carries no meaning.
pub open spec fn container_error(c: Container) -> Error
    decreases c, 2int,
{
    match c {
        Container::Array(ty, elems) => if !wf_elem(*ty) {
            elem_type_error(*ty)
        } else {
            array_error(*ty, elems@, 0)
        },
        Container::Struct(fs) => if fs@.len() == 0 {
            Error::EmptyStructNotAllowed
        } else {
            params_error(fs@, 0)
        },
        Container::DictEntry(_, _) => Error::DictEntryNotInArray,
        Container::Variant(v) => if !wf_type(v.sig) {
            Error::InvalidVariantSignature
        } else if !param_valid(v.value) {
            param_error(v.value)
        } else {
            Error::InvalidVariantSignature
        },
    }
}

/// The fault a derivation walk reports for an invalid array element; on a
/// valid one the value carries no meaning.
pub open spec fn elem_error(p: Param) -> Error
    decreases p, 2int,
{
    match p {
        Param::Container(Container::DictEntry(_, v)) => if !param_valid(*v) {
            param_error(*v)
        } else {
            Error::DictEntryNotInArray
        },
        _ => param_error(p),
    }
}

/// The fault reported for the elements of an array with declared element
/// type `ty`, walking from index `i`: the first invalid element's own
/// fault, or `HeterogeneousArray` naming the least index whose signature
/// differs from the declared type's. When no element is at fault the value
/// carries no meaning.
pub open spec fn array_error(ty: Type, elems: Seq<Param>, i: int) -> Error
    decreases elems, elems.len() - i,
{
    if i < 0 || i >= elems.len() {
        Error::DictEntryNotInArray
    } else if !elem_valid(elems[i]) {
        elem_error(elems[i])
    } else if sig_of_param(elems[i]) != print_type(ty) {
        Error::HeterogeneousArray(i as usize)
    } else {
        array_error(ty, elems, i + 1)
    }
}

/// The fault reported for the first invalid value in the sequence from
/// index `i` on; when all are valid the value carries no meaning.
pub open spec fn params_error(ps: Seq<Param>, i: int) -> Error
    decreases ps, ps.len() - i,
{
    if i < 0 || i >= ps.len() {
        Error::DictEntryNotInArray
    } else if !param_valid(ps[i]) {
        param_error(ps[i])
    } else {
        params_error(ps, i + 1)
    }
}

/// The fault `validate_array` reports, walking from index `i`: the first
/// invalid element's own fault, or `HeterogeneousArray` naming the least
/// index whose signature differs from element 0's. When no element is at
/// fault the value carries no meaning.
pub open spec fn array_first_fault(elems: Seq<Param>, i: int) -> Error
    decreases elems, elems.len() - i,
{
    if i < 0 || i >= elems.len() {
        Error::DictEntryNotInArray
    } else if !elem_valid(elems[i]) {
        elem_error(elems[i])
    } else if sig_of_param(elems[i]) != sig_of_param(elems[0]) {
        Error::HeterogeneousArray(i as usize)
    } else {
        array_first_fault(elems, i + 1)
    }
}

/// The error kinds signature derivation can report.
pub open spec fn derive_err(e: Error) -> bool {
    ||| e is HeterogeneousArray
    ||| e is EmptyStructNotAllowed
    ||| e is DictEntryNotInArray
    ||| e is InvalidVariantSignature
}

impl Param {
    /// Walks the value tree once and derives its signature type, checking
    /// structural validity along the way: every array homogeneous against
    /// its element type, every struct non-empty, no bare dict entry outside
    /// an array, every variant's declared signature matching its value.
    ///
    /// Succeeds exactly on structurally valid values, and the returned type
    /// is well-formed and prints as the value's signature.
    pub fn derive_signature(&self) -> (r: Result<Type, Error>)
        ensures
            r is Ok <==> param_valid(*self),
            r matches Ok(t) ==> wf_type(t) && print_type(t) == sig_of_param(*self),
            r matches Err(e) ==> e == param_error(*self),
            r matches Err(e) ==> derive_err(e),
        decreases self, 1int,
    {
        match self {
            Param::Base(b) => Ok(b.derived_type()),
            Param::Container(c) => derive_container(c),
        }
    }

    /// Appends this value's signature to `buf`.
    pub fn make_signature(&self, buf: &mut String)
        ensures
            final(buf)@ == old(buf)@ + sig_of_param(*self),
        decreases self, 1int,
    {
        match self {
            Param::Base(b) => b.make_signature(buf),
            Param::Container(c) => c.make_signature(buf),
        }
    }

    /// Checks every object-path and signature scalar in the value tree.
    pub fn validate_scalars(&self) -> (r: Result<(), Error>)
        ensures
            r is Ok <==> param_scalars_ok(*self),
            r matches Err(e) ==> (e is InvalidObjectPath || e is SignatureTooLong
                || e is UnmatchedDelimiter || e is InvalidSignature),
        decreases self, 1int,
    {
        match self {
            Param::Base(b) => b.validate(),
            Param::Container(c) => scalars_in_container(c),
        }
    }

    /// Checks this value against an expected type: succeeds exactly when the
    /// value is structurally valid, the expected type is well-formed, and
    /// the value's signature is the expected type's printed form.
    pub fn validate_against(&self, expected: &Type) -> (r: Result<(), Error>)
        ensures
            r is Ok <==> (param_valid(*self) && wf_type(*expected) && sig_of_param(*self)
                == print_type(*expected)),
            r matches Err(e) ==> (e is TypeMismatch || derive_err(e)),
            r matches Err(e) ==> (e is TypeMismatch <==> param_valid(*self)),
            r matches Err(e) ==> (!param_valid(*self) ==> e == param_error(*self)),
            r matches Err(e) ==> (e matches Error::TypeMismatch(exp, act) ==> exp@ == print_type(
                *expected,
            ) && act@ == sig_of_param(*self)),
    {
        match self.derive_signature() {
            Err(e) => Err(e),
            Ok(t) => {
                if type_eq(&t, expected) {
                    Ok(())
                } else {
                    proof {
                        if param_valid(*self) && wf_type(*expected) && sig_of_param(*self)
                            == print_type(*expected) {
                            lemma_wf_type_elem(t);
                            lemma_wf_type_elem(*expected);
                            lemma_print_injective(t, *expected);
                            assert(false);
                        }
                    }
                    let mut exp_vec: Vec<Type> = Vec::new();
                    exp_vec.push(clone_type(expected));
                    let mut act_vec: Vec<Type> = Vec::new();
                    act_vec.push(t);
                    proof {
                        lemma_print_one(exp_vec@);
                        lemma_print_one(act_vec@);
                    }
                    let exp_s = Type::to_string(&exp_vec);
                    let act_s = Type::to_string(&act_vec);
                    Err(Error::TypeMismatch(exp_s, act_s))
                }
            },
        }
    }
}

/// Printing a one-type sequence prints just that type.
proof fn lemma_print_one(ts: Seq<Type>)
    requires
        ts.len() == 1,
    ensures
        print_types(ts) == print_type(ts[0]),
{
    assert(ts.drop_first().len() == 0);
    assert(print_types(ts) == print_type(ts[0]) + print_types(ts.drop_first()));
    assert(print_type(ts[0]) + Seq::<char>::empty() =~= print_type(ts[0]));
}

/// Derives the signature type of a container value.
fn derive_container(c: &Container) -> (r: Result<Type, Error>)
    ensures
        r is Ok <==> container_valid(*c),
        r matches Ok(t) ==> wf_type(t) && print_type(t) == sig_of_container(*c),
        r matches Err(e) ==> e == container_error(*c),
        r matches Err(e) ==> derive_err(e),
    decreases c, 0int,
{
    match c {
        Container::Array(ty, elems) => {
            match check_elem_type(ty) {
                Err(e) => {
                    return Err(e);
                },
                Ok(()) => {},
            }
            match check_array_elems(ty, elems, 0) {
                Err(e) => {
                    return Err(e);
                },
                Ok(()) => {},
            }
            let ety = clone_type(ty);
            let t = Type::Array(Box::new(ety));
            proof {
                assert(print_type(t) == seq!['a'] + print_type(**ty));
            }
            Ok(t)
        },
        Container::Struct(fs) => {
            if fs.len() == 0 {
                return Err(Error::EmptyStructNotAllowed);
            }
            match derive_fields(fs, 0) {
                Err(e) => Err(e),
                Ok(l) => {
                    let t = Type::Struct(l);
                    proof {
                        assert(fs@.subrange(0, fs@.len() as int) =~= fs@);
                        assert(print_type(t) == seq!['('] + print_list(t->Struct_0) + seq![')']);
                    }
                    Ok(t)
                },
            }
        },
        Container::DictEntry(_, _) => Err(Error::DictEntryNotInArray),
        Container::Variant(v) => {
            match check_type_general(&v.sig) {
                Err(_) => {
                    return Err(Error::InvalidVariantSignature);
                },
                Ok(()) => {},
            }
            match v.value.derive_signature() {
                Err(e) => Err(e),
                Ok(dt) => {
                    if type_eq(&dt, &v.sig) {
                        Ok(Type::Variant)
                    } else {
                        proof {
                            if sig_of_param(v.value) == print_type(v.sig) {
                                lemma_wf_type_elem(dt);
                                lemma_wf_type_elem(v.sig);
                                lemma_print_injective(dt, v.sig);
                                assert(false);
                            }
                        }
                        Err(Error::InvalidVariantSignature)
                    }
                },
            }
        },
    }
}

/// Checks the array elements from index `i` on: each must be valid as an
/// element and carry the array's declared element signature.
fn check_array_elems(ty: &Type, elems: &Vec<Param>, i: usize) -> (r: Result<(), Error>)
    requires
        i <= elems@.len(),
        wf_elem(*ty),
    ensures
        r is Ok <==> (forall|j: int|
            i <= j < elems@.len() ==> elem_valid(#[trigger] elems@[j]) && sig_of_param(elems@[j])
                == print_type(*ty)),
        r matches Err(e) ==> e == array_error(*ty, elems@, i as int),
        r matches Err(e) ==> derive_err(e),
    decreases elems@, elems@.len() - i,
{
    if i >= elems.len() {
        return Ok(());
    }
    match derive_elem(&elems[i]) {
        Err(e) => {
            proof {
                assert(!elem_valid(elems@[i as int]));
            }
            Err(e)
        },
        Ok(et) => {
            if !type_eq(&et, ty) {
                proof {
                    if sig_of_param(elems@[i as int]) == print_type(*ty) {
                        lemma_print_injective(et, *ty);
                        assert(false);
                    }
                }
                Err(Error::HeterogeneousArray(i))
            } else {
                let r = check_array_elems(ty, elems, i + 1);
                proof {
                    if r is Ok {
                        assert forall|j: int|
                            i <= j < elems@.len() implies elem_valid(#[trigger] elems@[j])
                            && sig_of_param(elems@[j]) == print_type(*ty) by {}
                    }
                }
                r
            }
        },
    }
}

/// Derives the signature type of a value standing as an array element,
/// where a dict entry is admitted.
fn derive_elem(p: &Param) -> (r: Result<Type, Error>)
    ensures
        r is Ok <==> elem_valid(*p),
        r matches Ok(t) ==> wf_elem(t) && print_type(t) == sig_of_param(*p),
        r matches Err(e) ==> e == elem_error(*p),
        r matches Err(e) ==> derive_err(e),
    decreases p, 2int,
{
    match p {
        Param::Container(Container::DictEntry(k, v)) => {
            match v.derive_signature() {
                Err(e) => Err(e),
                Ok(vt) => {
                    let kt = k.derived_type();
                    let t = Type::DictEntry(Box::new(kt), Box::new(vt));
                    proof {
                        assert(print_type(t) == seq!['{'] + print_type(*t->DictEntry_0)
                            + print_type(*t->DictEntry_1) + seq!['}']);
                        assert(sig_of_param(*p) == seq!['{'] + seq![base_code(*k)] + sig_of_param(
                            **v,
                        ) + seq!['}']);
                    }
                    Ok(t)
                },
            }
        },
        _ => {
            let r = p.derive_signature();
            proof {
                if r is Ok {
                    lemma_wf_type_elem(r->Ok_0);
                }
            }
            r
        },
    }
}

/// Derives the types of the struct fields from index `i` on.
fn derive_fields(fs: &Vec<Param>, i: usize) -> (r: Result<TypeList, Error>)
    requires
        i <= fs@.len(),
    ensures
        r is Ok <==> (forall|j: int| i <= j < fs@.len() ==> param_valid(#[trigger] fs@[j])),
        r matches Ok(l) ==> wf_list(l) && print_list(l) == sig_of_params(
            fs@.subrange(i as int, fs@.len() as int),
        ) && (i < fs@.len() ==> l is Cons),
        r matches Err(e) ==> e == params_error(fs@, i as int),
        r matches Err(e) ==> derive_err(e),
    decreases fs@, fs@.len() - i,
{
    if i >= fs.len() {
        proof {
            assert(fs@.subrange(i as int, fs@.len() as int).len() == 0);
            assert(print_list(TypeList::Nil) =~= sig_of_params(
                fs@.subrange(i as int, fs@.len() as int),
            ));
        }
        return Ok(TypeList::Nil);
    }
    match fs[i].derive_signature() {
        Err(e) => Err(e),
        Ok(t) => match derive_fields(fs, i + 1) {
            Err(e) => Err(e),
            Ok(rest) => {
                let l = TypeList::Cons(Box::new(t), Box::new(rest));
                proof {
                    let sub = fs@.subrange(i as int, fs@.len() as int);
                    assert(sub.len() > 0);
                    assert(sub[0] == fs@[i as int]);
                    assert(sub.subrange(1, sub.len() as int) =~= fs@.subrange(
                        i + 1,
                        fs@.len() as int,
                    ));
                    assert(sig_of_params(sub) == sig_of_param(sub[0]) + sig_of_params(
                        sub.subrange(1, sub.len() as int),
                    ));
                    assert(print_list(l) == print_type(*l->Cons_0) + print_list(*l->Cons_1));
                }
                Ok(l)
            },
        },
    }
}

/// Checks every scalar below a container.
fn scalars_in_container(c: &Container) -> (r: Result<(), Error>)
    ensures
        r is Ok <==> container_scalars_ok(*c),
        r matches Err(e) ==> (e is InvalidObjectPath || e is SignatureTooLong
            || e is UnmatchedDelimiter || e is InvalidSignature),
    decreases c, 0int,
{
    match c {
        Container::Array(_, elems) => scalars_in_params(elems, 0),
        Container::Struct(fs) => scalars_in_params(fs, 0),
        Container::DictEntry(k, v) => match k.validate() {
            Err(e) => Err(e),
            Ok(()) => v.validate_scalars(),
        },
        Container::Variant(v) => v.value.validate_scalars(),
    }
}

/// Checks every scalar in the values from index `i` on.
fn scalars_in_params(ps: &Vec<Param>, i: usize) -> (r: Result<(), Error>)
    requires
        i <= ps@.len(),
    ensures
        r is Ok <==> (forall|j: int| i <= j < ps@.len() ==> param_scalars_ok(#[trigger] ps@[j])),
        r matches Err(e) ==> (e is InvalidObjectPath || e is SignatureTooLong
            || e is UnmatchedDelimiter || e is InvalidSignature),
    decreases ps@, ps@.len() - i,
{
    if i >= ps.len() {
        return Ok(());
    }
    match ps[i].validate_scalars() {
        Err(e) => Err(e),
        Ok(()) => scalars_in_params(ps, i + 1),
    }
}

impl Container {
    /// Appends this container's signature to `buf`.
    pub fn make_signature(&self, buf: &mut String)
        ensures
            final(buf)@ == old(buf)@ + sig_of_container(*self),
        decreases self, 0int,
    {
        match self {
            Container::Array(ty, _) => {
                buf.append("a");
                write_type(ty, buf);
                proof {
                    reveal_strlit("a");
                    assert(final(buf)@ =~= old(buf)@ + sig_of_container(*self));
                }
            },
            Container::Struct(fs) => {
                buf.append("(");
                write_params(fs, 0, buf);
                buf.append(")");
                proof {
                    reveal_strlit("(");
                    reveal_strlit(")");
                    assert(fs@.subrange(0, fs@.len() as int) =~= fs@);
                    assert(final(buf)@ =~= old(buf)@ + sig_of_container(*self));
                }
            },
            Container::DictEntry(k, v) => {
                buf.append("{");
                k.make_signature(buf);
                v.make_signature(buf);
                buf.append("}");
                proof {
                    reveal_strlit("{");
                    reveal_strlit("}");
                    assert(final(buf)@ =~= old(buf)@ + sig_of_container(*self));
                }
            },
            Container::Variant(_) => {
                buf.append("v");
                proof {
                    reveal_strlit("v");
                    assert(final(buf)@ =~= old(buf)@ + sig_of_container(*self));
                }
            },
        }
    }
}

/// Appends the signatures of the values from index `i` on to `buf`.
fn write_params(ps: &Vec<Param>, i: usize, buf: &mut String)
    requires
        i <= ps@.len(),
    ensures
        final(buf)@ == old(buf)@ + sig_of_params(ps@.subrange(i as int, ps@.len() as int)),
    decreases ps@, ps@.len() - i,
{
    if i >= ps.len() {
        proof {
            assert(sig_of_params(ps@.subrange(i as int, ps@.len() as int)) =~= Seq::<
                char,
            >::empty());
            assert(final(buf)@ =~= old(buf)@ + sig_of_params(
                ps@.subrange(i as int, ps@.len() as int),
            ));
        }
        return ;
    }
    ps[i].make_signature(buf);
    write_params(ps, i + 1, buf);
    proof {
        let sub = ps@.subrange(i as int, ps@.len() as int);
        assert(sub[0] == ps@[i as int]);
        assert(sub.subrange(1, sub.len() as int) =~= ps@.subrange(i + 1, ps@.len() as int));
        assert(sig_of_params(sub) == sig_of_param(sub[0]) + sig_of_params(
            sub.subrange(1, sub.len() as int),
        ));
        assert(final(buf)@ =~= old(buf)@ + sig_of_params(sub));
    }
}

/// Checks that every element of `array` is valid as an array element and
/// that every element's signature equals the first element's. An empty
/// array has nothing to check here: its element type travels with the
/// `Container::Array` value instead.
pub fn validate_array(array: &Vec<Param>) -> (r: Result<(), Error>)
    ensures
        r is Ok <==> (forall|i: int|
            0 <= i < array@.len() ==> elem_valid(#[trigger] array@[i]) && sig_of_param(array@[i])
                == sig_of_param(array@[0])),
        r matches Err(e) ==> e == array_first_fault(array@, 0),
        r matches Err(e) ==> derive_err(e),
{
    if array.len() == 0 {
        return Ok(());
    }
    let first = match derive_elem(&array[0]) {
        Err(e) => {
            proof {
                assert(array_first_fault(array@, 0) == elem_error(array@[0]));
            }
            return Err(e);
        },
        Ok(t) => t,
    };
    let mut i: usize = 1;
    while i < array.len()
        invariant
            1 <= i <= array@.len(),
            elem_valid(array@[0]),
            wf_elem(first),
            print_type(first) == sig_of_param(array@[0]),
            forall|j: int|
                0 <= j < i ==> elem_valid(#[trigger] array@[j]) && sig_of_param(array@[j])
                    == sig_of_param(array@[0]),
        decreases array@.len() - i,
    {
        match derive_elem(&array[i]) {
            Err(e) => {
                proof {
                    lemma_array_fault_walk(array@, i as int);
                    assert(array_first_fault(array@, i as int) == elem_error(array@[i as int]));
                }
                return Err(e);
            },
            Ok(et) => {
                if !type_eq(&et, &first) {
                    proof {
                        if sig_of_param(array@[i as int]) == sig_of_param(array@[0]) {
                            lemma_print_injective(et, first);
                            assert(false);
                        }
                        lemma_array_fault_walk(array@, i as int);
                        assert(array_first_fault(array@, i as int) == Error::HeterogeneousArray(
                            i as usize,
                        ));
                    }
                    return Err(Error::HeterogeneousArray(i));
                }
            },
        }
        i = i + 1;
    }
    Ok(())
}

/// As long as every element before `i` is valid and carries element 0's
/// signature, the fault of the whole walk is the fault of the walk from `i`.
proof fn lemma_array_fault_walk(elems: Seq<Param>, i: int)
    requires
        0 <= i <= elems.len(),
        forall|j: int|
            0 <= j < i ==> elem_valid(#[trigger] elems[j]) && sig_of_param(elems[j])
                == sig_of_param(elems[0]),
    ensures
        array_first_fault(elems, 0) == array_first_fault(elems, i),
    decreases i,
{
    if i > 0 {
        lemma_array_fault_walk(elems, i - 1);
        assert(array_first_fault(elems, i - 1) == array_first_fault(elems, i));
    }
}

} // verus!
