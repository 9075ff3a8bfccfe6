//! The type-signature algebra: the recursive tree of argument types, the
//! canonical signature-string form of a tree, and the parser that is its
//! exact inverse.
//!
//! The grammar of a single type is
//! `type := basic | 'a' type | '(' type+ ')' | '{' basic type '}' | 'v'`,
//! where `{` is legal only directly after `a`. A signature string denotes a
//! sequence of one or more types.

use vstd::prelude::*;
use vstd::string::StringExecFns;

use crate::error::Error;

verus! {

/// The default upper bound on the length of a signature string, in
/// characters. Callers of `Type::parse` may pass their own bound.
pub const MAX_SIGNATURE_LEN: usize = 255;

/// One node of the type-signature tree.
///
/// `DictEntry` is only well-formed directly below an `Array`; `Struct` is
/// only well-formed with at least one field. `Variant` stands for a value
/// that carries its own signature, so it contributes a single marker here.
#[derive(Debug, PartialEq, Eq)]
pub enum Type {
    Boolean,
    Int32,
    UInt32,
    String,
    ObjectPath,
    Signature,
    UnixFd,
    Variant,
    Array(Box<Type>),
    Struct(TypeList),
    DictEntry(Box<Type>, Box<Type>),
}

/// The ordered fields of a `Struct`, as a list so that two equal field
/// sequences are equal values.
#[derive(Debug, PartialEq, Eq)]
pub enum TypeList {
    Nil,
    Cons(Box<Type>, Box<TypeList>),
}

/// `t` is a basic (non-container) kind.
pub open spec fn is_basic(t: Type) -> bool {
    match t {
        Type::Boolean => true,
        Type::Int32 => true,
        Type::UInt32 => true,
        Type::String => true,
        Type::ObjectPath => true,
        Type::Signature => true,
        Type::UnixFd => true,
        _ => false,
    }
}

/// The single letter that encodes a basic kind.
pub open spec fn basic_code(t: Type) -> char {
    match t {
        Type::Boolean => 'c',
        Type::Int32 => 'i',
        Type::UInt32 => 'u',
        Type::String => 's',
        Type::ObjectPath => 'o',
        Type::Signature => 'g',
        Type::UnixFd => 'h',
        _ => ' ',
    }
}

/// `c` is the letter of some basic kind.
pub open spec fn is_basic_code(c: char) -> bool {
    c == 'c' || c == 'i' || c == 'u' || c == 's' || c == 'o' || c == 'g' || c == 'h'
}

/// The basic kind encoded by letter `c`.
pub open spec fn code_basic(c: char) -> Type {
    if c == 'c' {
        Type::Boolean
    } else if c == 'i' {
        Type::Int32
    } else if c == 'u' {
        Type::UInt32
    } else if c == 's' {
        Type::String
    } else if c == 'o' {
        Type::ObjectPath
    } else if c == 'g' {
        Type::Signature
    } else {
        Type::UnixFd
    }
}

/// The canonical signature string of one type, as a character sequence.
pub open spec fn print_type(t: Type) -> Seq<char>
    decreases t,
{
    match t {
        Type::Boolean => seq!['c'],
        Type::Int32 => seq!['i'],
        Type::UInt32 => seq!['u'],
        Type::String => seq!['s'],
        Type::ObjectPath => seq!['o'],
        Type::Signature => seq!['g'],
        Type::UnixFd => seq!['h'],
        Type::Variant => seq!['v'],
        Type::Array(e) => seq!['a'] + print_type(*e),
        Type::Struct(fs) => seq!['('] + print_list(fs) + seq![')'],
        Type::DictEntry(k, v) => seq!['{'] + print_type(*k) + print_type(*v) + seq!['}'],
    }
}

/// The concatenated signature of a list of struct fields.
pub open spec fn print_list(l: TypeList) -> Seq<char>
    decreases l,
{
    match l {
        TypeList::Nil => Seq::<char>::empty(),
        TypeList::Cons(t, rest) => print_type(*t) + print_list(*rest),
    }
}

/// The concatenated signature of a sequence of top-level types.
pub open spec fn print_types(ts: Seq<Type>) -> Seq<char>
    decreases ts.len(),
{
    if ts.len() == 0 {
        Seq::<char>::empty()
    } else {
        print_type(ts[0]) + print_types(ts.drop_first())
    }
}

/// `t` is well-formed in a general position: structs are non-empty and no
/// bare dict entry appears outside an array.
pub open spec fn wf_type(t: Type) -> bool
    decreases t, 0int,
{
    match t {
        Type::Array(e) => wf_elem(*e),
        Type::Struct(fs) => fs is Cons && wf_list(fs),
        Type::DictEntry(_, _) => false,
        _ => true,
    }
}

/// `t` is well-formed as the element type of an array: a dict entry with a
/// basic key is allowed here, and nothing else changes.
pub open spec fn wf_elem(t: Type) -> bool
    decreases t, 1int,
{
    match t {
        Type::DictEntry(k, v) => is_basic(*k) && wf_type(*v),
        _ => wf_type(t),
    }
}

/// Every field in the list is well-formed.
pub open spec fn wf_list(l: TypeList) -> bool
    decreases l,
{
    match l {
        TypeList::Nil => true,
        TypeList::Cons(t, rest) => wf_type(*t) && wf_list(*rest),
    }
}

/// Every type in the sequence is well-formed.
pub open spec fn wf_types(ts: Seq<Type>) -> bool {
    forall|i: int| 0 <= i < ts.len() ==> wf_type(ts[i])
}

/// `s` is a syntactically valid signature string: the print of some
/// non-empty sequence of well-formed types.
pub open spec fn is_valid_signature(s: Seq<char>) -> bool {
    exists|ts: Seq<Type>| ts.len() > 0 && wf_types(ts) && print_types(ts) == s
}

/// The first character of a type's printed form, by variant.
pub open spec fn head_char(t: Type) -> char {
    match t {
        Type::Variant => 'v',
        Type::Array(_) => 'a',
        Type::Struct(_) => '(',
        Type::DictEntry(_, _) => '{',
        _ => basic_code(t),
    }
}

/// A printed type is never empty and starts with the character that its
/// variant determines.
pub proof fn lemma_print_head(t: Type)
    ensures
        print_type(t).len() >= 1,
        print_type(t)[0] == head_char(t),
{
    match t {
        Type::Array(e) => {
            assert(print_type(t) == seq!['a'] + print_type(*e));
        },
        Type::Struct(fs) => {
            assert(print_type(t) == seq!['('] + print_list(fs) + seq![')']);
        },
        Type::DictEntry(k, v) => {
            assert(print_type(t) == seq!['{'] + print_type(*k) + print_type(*v) + seq!['}']);
        },
        _ => {},
    }
}

impl Type {
    /// Parses a signature string into the sequence of types it denotes,
    /// consuming the entire input.
    ///
    /// Parsing succeeds exactly on strings of at most `max_len` characters
    /// that are the print of a non-empty sequence of well-formed types, and
    /// then returns exactly that sequence — so printing the result gives the
    /// input back, and parsing a printed tree gives the tree back.
    pub fn parse(s: &str, max_len: usize) -> (r: Result<Vec<Type>, Error>)
        ensures
            r matches Ok(ts) ==> ts@.len() > 0 && wf_types(ts@) && print_types(ts@) == s@,
            r matches Ok(ts) ==> forall|ts2: Seq<Type>|
                ts2.len() > 0 && wf_types(ts2) && print_types(ts2) == s@ ==> ts2 == ts@,
            r is Ok <==> (s@.len() <= max_len && is_valid_signature(s@)),
            r matches Err(e) ==> (e is SignatureTooLong <==> s@.len() > max_len),
            r matches Err(e) ==> (e is SignatureTooLong || e is UnmatchedDelimiter || (
            e matches Error::InvalidSignature(off) && off <= s@.len())),
    {
        let n = s.unicode_len();
        if n > max_len {
            return Err(Error::SignatureTooLong);
        }
        if n == 0 {
            proof {
                if is_valid_signature(s@) {
                    let ts = choose|ts: Seq<Type>|
                        ts.len() > 0 && wf_types(ts) && print_types(ts) == s@;
                    lemma_print_types_head(ts);
                    assert(false);
                }
            }
            return Err(Error::InvalidSignature(0));
        }
        let mut types: Vec<Type> = Vec::new();
        let mut pos: usize = 0;
        while pos < n
            invariant
                n == s@.len(),
                n <= max_len,
                pos <= n,
                wf_types(types@),
                print_types(types@) == s@.subrange(0, pos as int),
                types@.len() > 0 <==> pos > 0,
            decreases n - pos,
        {
            match parse_type(s, pos, n, false) {
                Ok((t, end)) => {
                    proof {
                        lemma_print_types_push(types@, t);
                        lemma_join_at(s@, 0, pos as int, end as int);
                        assert(print_types(types@.push(t)) == s@.subrange(0, end as int));
                        assert(wf_types(types@.push(t))) by {
                            assert(forall|i: int|
                                0 <= i < types@.len() ==> types@.push(t)[i] == types@[i]);
                            assert(types@.push(t)[types@.len() as int] == t);
                        }
                    }
                    types.push(t);
                    pos = end;
                },
                Err(e) => {
                    proof {
                        if is_valid_signature(s@) {
                            let ts = choose|ts: Seq<Type>|
                                ts.len() > 0 && wf_types(ts) && print_types(ts) == s@;
                            lemma_join_at(s@, 0, pos as int, n as int);
                            assert(print_types(ts) == print_types(types@) + s@.subrange(
                                pos as int,
                                n as int,
                            ));
                            lemma_types_prefix(ts, types@, s@.subrange(pos as int, n as int));
                            let k = types@.len() as int;
                            let rest = ts.subrange(k, ts.len() as int);
                            assert(print_types(rest) == s@.subrange(pos as int, n as int));
                            assert(print_types(rest).len() == n - pos);
                            assert(rest.len() > 0);
                            lemma_print_types_head(rest);
                            assert(print_type(rest[0]) + print_types(rest.drop_first())
                                == s@.subrange(pos as int, n as int));
                            assert(pos + print_type(rest[0]).len() + print_types(
                                rest.drop_first(),
                            ).len() <= n);
                            lemma_split_at(
                                s@,
                                pos as int,
                                print_type(rest[0]),
                                print_types(rest.drop_first()),
                            );
                            assert(type_at(s@, pos as int, rest[0]));
                            assert(rest[0] == ts[k]);
                            assert(wf_type(ts[k]));
                            assert(wf_for(rest[0], false));
                            assert(false);
                        }
                    }
                    return Err(e);
                },
            }
        }
        proof {
            assert(s@.subrange(0, n as int) =~= s@);
            assert(types@.len() > 0);
            assert(is_valid_signature(s@)) by {
                assert(types@.len() > 0 && wf_types(types@) && print_types(types@) == s@);
            }
            assert forall|ts2: Seq<Type>|
                ts2.len() > 0 && wf_types(ts2) && print_types(ts2) == s@ implies ts2
                == types@ by {
                assert(print_types(ts2) == print_types(types@) + Seq::<char>::empty()) by {
                    assert(print_types(types@) + Seq::<char>::empty() =~= print_types(types@));
                }
                lemma_types_prefix(ts2, types@, Seq::<char>::empty());
                let k = types@.len() as int;
                let rest = ts2.subrange(k, ts2.len() as int);
                if rest.len() > 0 {
                    lemma_print_types_head(rest);
                    assert(false);
                }
                assert(ts2 =~= types@);
            }
        }
        Ok(types)
    }

    /// Prints the canonical signature string of a sequence of types:
    /// each type's letter/bracket form, concatenated, no whitespace.
    pub fn to_string(types: &Vec<Type>) -> (r: String)
        ensures
            r@ == print_types(types@),
    {
        let mut buf = String::new();
        let mut i: usize = 0;
        while i < types.len()
            invariant
                i <= types.len(),
                buf@ == print_types(types@.subrange(0, i as int)),
            decreases types.len() - i,
        {
            write_type(&types[i], &mut buf);
            proof {
                lemma_print_types_snoc(types@, i as int);
            }
            i = i + 1;
        }
        proof {
            assert(types@.subrange(0, types@.len() as int) =~= types@);
        }
        buf
    }
}

/// Appending one more type to a prefix extends its printed form by that
/// type's print.
proof fn lemma_print_types_snoc(ts: Seq<Type>, i: int)
    requires
        0 <= i < ts.len(),
    ensures
        print_types(ts.subrange(0, i + 1)) == print_types(ts.subrange(0, i)) + print_type(ts[i]),
    decreases i,
{
    if i == 0 {
        let one = ts.subrange(0, 1);
        assert(one.drop_first() =~= Seq::<Type>::empty());
        assert(print_types(ts.subrange(0, 0)) =~= Seq::<char>::empty());
        assert(print_types(one) == print_type(ts[0]) + print_types(one.drop_first()));
        assert(print_types(one) =~= print_types(ts.subrange(0, 0)) + print_type(ts[0]));
    } else {
        let pre = ts.subrange(0, i + 1);
        let pre0 = ts.subrange(0, i);
        lemma_print_types_snoc(ts.drop_first(), i - 1);
        assert(pre.drop_first() =~= ts.drop_first().subrange(0, i));
        assert(pre0.drop_first() =~= ts.drop_first().subrange(0, i - 1));
        assert(ts.drop_first()[i - 1] == ts[i]);
        assert(print_types(pre) == print_type(ts[0]) + print_types(pre.drop_first()));
        assert(print_types(pre0) == print_type(ts[0]) + print_types(pre0.drop_first()));
        assert(print_types(pre) =~= print_types(pre0) + print_type(ts[i]));
    }
}

/// Appends the canonical form of `t` to `buf`.
pub(crate) fn write_type(t: &Type, buf: &mut String)
    ensures
        final(buf)@ == old(buf)@ + print_type(*t),
    decreases *t,
{
    match t {
        Type::Boolean => {
            buf.append("c");
            proof {
                reveal_strlit("c");
                assert(final(buf)@ =~= old(buf)@ + print_type(*t));
            }
        },
        Type::Int32 => {
            buf.append("i");
            proof {
                reveal_strlit("i");
                assert(final(buf)@ =~= old(buf)@ + print_type(*t));
            }
        },
        Type::UInt32 => {
            buf.append("u");
            proof {
                reveal_strlit("u");
                assert(final(buf)@ =~= old(buf)@ + print_type(*t));
            }
        },
        Type::String => {
            buf.append("s");
            proof {
                reveal_strlit("s");
                assert(final(buf)@ =~= old(buf)@ + print_type(*t));
            }
        },
        Type::ObjectPath => {
            buf.append("o");
            proof {
                reveal_strlit("o");
                assert(final(buf)@ =~= old(buf)@ + print_type(*t));
            }
        },
        Type::Signature => {
            buf.append("g");
            proof {
                reveal_strlit("g");
                assert(final(buf)@ =~= old(buf)@ + print_type(*t));
            }
        },
        Type::UnixFd => {
            buf.append("h");
            proof {
                reveal_strlit("h");
                assert(final(buf)@ =~= old(buf)@ + print_type(*t));
            }
        },
        Type::Variant => {
            buf.append("v");
            proof {
                reveal_strlit("v");
                assert(final(buf)@ =~= old(buf)@ + print_type(*t));
            }
        },
        Type::Array(e) => {
            buf.append("a");
            write_type(e, buf);
            proof {
                reveal_strlit("a");
                assert(final(buf)@ =~= old(buf)@ + print_type(*t));
            }
        },
        Type::Struct(fs) => {
            buf.append("(");
            write_list(fs, buf);
            buf.append(")");
            proof {
                reveal_strlit("(");
                reveal_strlit(")");
                assert(final(buf)@ =~= old(buf)@ + print_type(*t));
            }
        },
        Type::DictEntry(k, v) => {
            buf.append("{");
            write_type(k, buf);
            write_type(v, buf);
            buf.append("}");
            proof {
                reveal_strlit("{");
                reveal_strlit("}");
                assert(final(buf)@ =~= old(buf)@ + print_type(*t));
            }
        },
    }
}

/// The print of `t` occupies `s` starting at `pos`.
pub open spec fn type_at(s: Seq<char>, pos: int, t: Type) -> bool {
    &&& pos + print_type(t).len() <= s.len()
    &&& s.subrange(pos, pos + print_type(t).len() as int) == print_type(t)
}

/// Well-formedness in the position the parser is at: inside an array a dict
/// entry is admitted, elsewhere it is not.
pub open spec fn wf_for(t: Type, in_array: bool) -> bool {
    if in_array {
        wf_elem(t)
    } else {
        wf_type(t)
    }
}

/// The prints of the fields of `l` occupy `s` from `pos` on, directly
/// followed by the closing `)` of the surrounding struct.
pub open spec fn fields_at(s: Seq<char>, pos: int, l: TypeList) -> bool {
    let m = print_list(l).len() as int;
    &&& pos + m < s.len()
    &&& s.subrange(pos, pos + m) == print_list(l)
    &&& s[pos + m] == ')'
}

/// The error kinds the grammar walk itself can report.
pub open spec fn grammar_err(e: Error, n: usize) -> bool {
    ||| e is UnmatchedDelimiter
    ||| e matches Error::InvalidSignature(off) && off <= n
}

/// A basic kind prints as its single letter.
proof fn lemma_print_basic(t: Type)
    requires
        is_basic(t),
    ensures
        print_type(t) == seq![basic_code(t)],
{
}

/// A type that is well-formed in a general position is also well-formed as
/// an array element.
pub proof fn lemma_wf_type_elem(t: Type)
    requires
        wf_type(t),
    ensures
        wf_elem(t),
{
    match t {
        Type::DictEntry(_, _) => {
            assert(!wf_type(t));
        },
        _ => {},
    }
}

/// A type whose print starts at `pos` starts with its head character.
proof fn lemma_type_at_head(s: Seq<char>, pos: int, t: Type)
    requires
        type_at(s, pos, t),
        0 <= pos,
    ensures
        print_type(t).len() >= 1,
        pos < s.len(),
        s[pos] == head_char(t),
{
    lemma_print_head(t);
    assert(s.subrange(pos, pos + print_type(t).len() as int)[0] == s[pos]);
}

/// Dropping an equal head character from two equal sequences leaves two
/// equal sequences.
proof fn lemma_head_cancel(c: char, u: Seq<char>, d: char, v: Seq<char>)
    requires
        seq![c] + u == seq![d] + v,
    ensures
        c == d,
        u == v,
{
    assert((seq![c] + u)[0] == c);
    assert((seq![d] + v)[0] == d);
    assert(u =~= v) by {
        assert((seq![c] + u).len() == 1 + u.len());
        assert((seq![d] + v).len() == 1 + v.len());
        assert forall|i: int| 0 <= i < u.len() implies u[i] == v[i] by {
            assert((seq![c] + u)[i + 1] == u[i]);
            assert((seq![d] + v)[i + 1] == v[i]);
        }
    }
}

/// Cancelling an equal prefix of two equal sequences leaves two equal
/// sequences.
proof fn lemma_concat_cancel(p: Seq<char>, r1: Seq<char>, r2: Seq<char>)
    requires
        p + r1 == p + r2,
    ensures
        r1 == r2,
{
    assert(r1 =~= r2) by {
        assert((p + r1).len() == p.len() + r1.len());
        assert((p + r2).len() == p.len() + r2.len());
        assert forall|i: int| 0 <= i < r1.len() implies r1[i] == r2[i] by {
            assert((p + r1).len() == p.len() + r1.len());
            assert((p + r2).len() == p.len() + r2.len());
            assert((p + r1)[p.len() + i] == r1[i]);
            assert((p + r2)[p.len() + i] == r2[i]);
        }
    }
}

/// The printed form of a well-formed type determines the type: no print of
/// one well-formed type is a proper prefix of another's, so equal streams
/// that both start with a printed type agree on that type and on the rest.
pub proof fn lemma_unambiguous(t1: Type, r1: Seq<char>, t2: Type, r2: Seq<char>)
    requires
        wf_elem(t1),
        wf_elem(t2),
        print_type(t1) + r1 == print_type(t2) + r2,
    ensures
        t1 == t2,
        r1 == r2,
    decreases t1,
{
    lemma_print_head(t1);
    lemma_print_head(t2);
    assert((print_type(t1) + r1)[0] == head_char(t1));
    assert((print_type(t2) + r2)[0] == head_char(t2));
    assert(head_char(t1) == head_char(t2));
    match t1 {
        Type::Array(e1) => {
            assert(t2 is Array);
            let e2 = t2->Array_0;
            assert(seq!['a'] + (print_type(*e1) + r1) =~= print_type(t1) + r1);
            assert(seq!['a'] + (print_type(*e2) + r2) =~= print_type(t2) + r2);
            lemma_head_cancel('a', print_type(*e1) + r1, 'a', print_type(*e2) + r2);
            lemma_unambiguous(*e1, r1, *e2, r2);
        },
        Type::Struct(fs1) => {
            assert(t2 is Struct);
            let fs2 = t2->Struct_0;
            assert(seq!['('] + (print_list(fs1) + (seq![')'] + r1)) =~= print_type(t1) + r1);
            assert(seq!['('] + (print_list(fs2) + (seq![')'] + r2)) =~= print_type(t2) + r2);
            lemma_head_cancel(
                '(',
                print_list(fs1) + (seq![')'] + r1),
                '(',
                print_list(fs2) + (seq![')'] + r2),
            );
            lemma_list_unambiguous(fs1, seq![')'] + r1, fs2, seq![')'] + r2);
            lemma_head_cancel(')', r1, ')', r2);
        },
        Type::DictEntry(k1, v1) => {
            assert(t2 is DictEntry);
            let k2 = t2->DictEntry_0;
            let v2 = t2->DictEntry_1;
            lemma_print_basic(*k1);
            lemma_print_basic(*k2);
            assert(seq!['{'] + (seq![basic_code(*k1)] + (print_type(*v1) + (seq!['}'] + r1)))
                =~= print_type(t1) + r1);
            assert(seq!['{'] + (seq![basic_code(*k2)] + (print_type(*v2) + (seq!['}'] + r2)))
                =~= print_type(t2) + r2);
            lemma_head_cancel(
                '{',
                seq![basic_code(*k1)] + (print_type(*v1) + (seq!['}'] + r1)),
                '{',
                seq![basic_code(*k2)] + (print_type(*v2) + (seq!['}'] + r2)),
            );
            lemma_head_cancel(
                basic_code(*k1),
                print_type(*v1) + (seq!['}'] + r1),
                basic_code(*k2),
                print_type(*v2) + (seq!['}'] + r2),
            );
            assert(*k1 == *k2);
            lemma_unambiguous(*v1, seq!['}'] + r1, *v2, seq!['}'] + r2);
            lemma_head_cancel('}', r1, '}', r2);
        },
        _ => {
            assert(t1 == t2);
            lemma_concat_cancel(print_type(t1), r1, r2);
        },
    }
}

/// The same for field lists: if both streams continue with something that
/// cannot start a type (the closing parenthesis), the lists agree.
pub proof fn lemma_list_unambiguous(l1: TypeList, w1: Seq<char>, l2: TypeList, w2: Seq<char>)
    requires
        wf_list(l1),
        wf_list(l2),
        print_list(l1) + w1 == print_list(l2) + w2,
        w1.len() >= 1,
        w1[0] == ')',
        w2.len() >= 1,
        w2[0] == ')',
    ensures
        l1 == l2,
        w1 == w2,
    decreases l1,
{
    match l1 {
        TypeList::Nil => {
            match l2 {
                TypeList::Nil => {
                    assert(w1 =~= print_list(l1) + w1);
                    assert(w2 =~= print_list(l2) + w2);
                },
                TypeList::Cons(h2, r2l) => {
                    lemma_print_head(*h2);
                    assert((print_list(l2) + w2)[0] == head_char(*h2));
                    assert((print_list(l1) + w1)[0] == ')');
                    assert(false);
                },
            }
        },
        TypeList::Cons(h1, r1l) => {
            match l2 {
                TypeList::Nil => {
                    lemma_print_head(*h1);
                    assert((print_list(l1) + w1)[0] == head_char(*h1));
                    assert((print_list(l2) + w2)[0] == ')');
                    assert(false);
                },
                TypeList::Cons(h2, r2l) => {
                    assert(print_type(*h1) + (print_list(*r1l) + w1) =~= print_list(l1) + w1);
                    assert(print_type(*h2) + (print_list(*r2l) + w2) =~= print_list(l2) + w2);
                    lemma_wf_type_elem(*h1);
                    lemma_wf_type_elem(*h2);
                    lemma_unambiguous(*h1, print_list(*r1l) + w1, *h2, print_list(*r2l) + w2);
                    lemma_list_unambiguous(*r1l, w1, *r2l, w2);
                },
            }
        },
    }
}

/// A subrange of length one is the singleton of the character there.
proof fn lemma_one_char(s: Seq<char>, pos: int)
    requires
        0 <= pos < s.len(),
    ensures
        s.subrange(pos, pos + 1) == seq![s[pos]],
{
    assert(s.subrange(pos, pos + 1) =~= seq![s[pos]]);
}

/// A subrange splits at any midpoint into the two adjacent subranges.
proof fn lemma_join_at(s: Seq<char>, pos: int, mid: int, end: int)
    requires
        0 <= pos <= mid <= end <= s.len(),
    ensures
        s.subrange(pos, end) == s.subrange(pos, mid) + s.subrange(mid, end),
{
    assert(s.subrange(pos, end) =~= s.subrange(pos, mid) + s.subrange(mid, end));
}

/// If a concatenation occupies a range of `s`, its parts occupy the two
/// adjacent subranges.
proof fn lemma_split_at(s: Seq<char>, pos: int, a: Seq<char>, b: Seq<char>)
    requires
        0 <= pos,
        pos + a.len() + b.len() <= s.len(),
        s.subrange(pos, pos + a.len() + b.len()) == a + b,
    ensures
        s.subrange(pos, pos + a.len() as int) == a,
        s.subrange(pos + a.len(), pos + a.len() + b.len()) == b,
{
    let whole = s.subrange(pos, pos + a.len() + b.len());
    assert((a + b).len() == a.len() + b.len());
    assert(s.subrange(pos, pos + a.len() as int) =~= a) by {
        assert forall|i: int| 0 <= i < a.len() implies s.subrange(
            pos,
            pos + a.len() as int,
        )[i] == a[i] by {
            assert(whole[i] == (a + b)[i]);
        }
    }
    assert(s.subrange(pos + a.len(), pos + a.len() + b.len()) =~= b) by {
        assert forall|i: int| 0 <= i < b.len() implies s.subrange(
            pos + a.len(),
            pos + a.len() + b.len(),
        )[i] == b[i] by {
            assert(whole[a.len() + i] == (a + b)[a.len() + i]);
        }
    }
}

/// A non-empty sequence of types prints to a non-empty string that starts
/// with the head character of its first type.
proof fn lemma_print_types_head(ts: Seq<Type>)
    requires
        ts.len() > 0,
    ensures
        print_types(ts).len() >= print_type(ts[0]).len(),
        print_types(ts).len() >= 1,
        print_types(ts) == print_type(ts[0]) + print_types(ts.drop_first()),
{
    lemma_print_head(ts[0]);
    assert(print_types(ts) == print_type(ts[0]) + print_types(ts.drop_first()));
    assert(print_types(ts).len() == print_type(ts[0]).len() + print_types(ts.drop_first()).len());
}

/// Printing a sequence extended by one type appends that type's print.
proof fn lemma_print_types_push(ts: Seq<Type>, t: Type)
    ensures
        print_types(ts.push(t)) == print_types(ts) + print_type(t),
    decreases ts.len(),
{
    if ts.len() == 0 {
        assert(ts.push(t).drop_first() =~= Seq::<Type>::empty());
        assert(ts.push(t)[0] == t);
        assert(print_types(ts.push(t)) == print_type(t) + print_types(Seq::<Type>::empty()));
        assert(print_types(ts.push(t)) =~= print_types(ts) + print_type(t));
    } else {
        lemma_print_types_push(ts.drop_first(), t);
        assert(ts.push(t).drop_first() =~= ts.drop_first().push(t));
        assert(ts.push(t)[0] == ts[0]);
        assert(print_types(ts.push(t)) == print_type(ts[0]) + print_types(ts.drop_first().push(t)));
        assert(print_types(ts) == print_type(ts[0]) + print_types(ts.drop_first()));
        assert(print_types(ts.push(t)) =~= print_types(ts) + print_type(t));
    }
}

/// If a stream is both the print of `ts` and the print of `fs` followed by
/// `w`, then `fs` is a prefix of `ts` and `w` prints the remainder.
proof fn lemma_types_prefix(ts: Seq<Type>, fs: Seq<Type>, w: Seq<char>)
    requires
        wf_types(ts),
        wf_types(fs),
        print_types(ts) == print_types(fs) + w,
    ensures
        fs.len() <= ts.len(),
        fs == ts.subrange(0, fs.len() as int),
        w == print_types(ts.subrange(fs.len() as int, ts.len() as int)),
    decreases fs.len(),
{
    if fs.len() == 0 {
        assert(print_types(fs) + w =~= w);
        assert(fs =~= ts.subrange(0, 0));
        assert(ts.subrange(0, ts.len() as int) =~= ts);
    } else {
        lemma_print_types_head(fs);
        if ts.len() == 0 {
            assert(print_types(ts).len() == 0);
            assert((print_types(fs) + w).len() == print_types(fs).len() + w.len());
            assert(false);
        }
        lemma_print_types_head(ts);
        assert(print_type(ts[0]) + print_types(ts.drop_first()) == print_type(fs[0]) + (print_types(
            fs.drop_first(),
        ) + w)) by {
            assert(print_types(fs) + w =~= print_type(fs[0]) + (print_types(fs.drop_first()) + w));
        }
        lemma_wf_type_elem(ts[0]);
        lemma_wf_type_elem(fs[0]);
        lemma_unambiguous(ts[0], print_types(ts.drop_first()), fs[0], print_types(fs.drop_first()) + w);
        assert(wf_types(ts.drop_first())) by {
            assert(forall|i: int|
                0 <= i < ts.drop_first().len() ==> ts.drop_first()[i] == ts[i + 1]);
        }
        assert(wf_types(fs.drop_first())) by {
            assert(forall|i: int|
                0 <= i < fs.drop_first().len() ==> fs.drop_first()[i] == fs[i + 1]);
        }
        lemma_types_prefix(ts.drop_first(), fs.drop_first(), w);
        assert(fs =~= ts.subrange(0, fs.len() as int)) by {
            assert forall|i: int| 0 <= i < fs.len() implies fs[i] == ts.subrange(
                0,
                fs.len() as int,
            )[i] by {
                if i > 0 {
                    assert(fs.drop_first()[i - 1] == fs[i]);
                    assert(fs.drop_first()[i - 1] == ts.drop_first().subrange(
                        0,
                        fs.len() - 1,
                    )[i - 1]);
                    assert(ts.drop_first().subrange(0, fs.len() - 1)[i - 1] == ts.drop_first()[i
                        - 1]);
                    assert(ts.drop_first()[i - 1] == ts[i]);
                }
            }
        }
        assert(ts.drop_first().subrange(fs.len() - 1, ts.len() - 1) =~= ts.subrange(
            fs.len() as int,
            ts.len() as int,
        ));
    }
}

/// If a struct type's print occupies `s` at `pos`, its field list's prints
/// occupy `s` from `pos + 1` on, followed by the closing parenthesis.
proof fn lemma_struct_at(s: Seq<char>, pos: int, fs: TypeList)
    requires
        0 <= pos,
        type_at(s, pos, Type::Struct(fs)),
    ensures
        fields_at(s, pos + 1, fs),
{
    let m = print_list(fs).len() as int;
    let p = print_type(Type::Struct(fs));
    assert(p == seq!['('] + print_list(fs) + seq![')']);
    assert((seq!['('] + print_list(fs)).len() == 1 + m);
    assert(p.len() == 2 + m);
    let whole = s.subrange(pos, pos + p.len() as int);
    assert(s.subrange(pos + 1, pos + 1 + m) =~= print_list(fs)) by {
        assert forall|i: int| 0 <= i < m implies s.subrange(pos + 1, pos + 1 + m)[i]
            == print_list(fs)[i] by {
            assert(whole[i + 1] == p[i + 1]);
            assert((seq!['('] + print_list(fs))[i + 1] == print_list(fs)[i]);
            assert(p[i + 1] == (seq!['('] + print_list(fs))[i + 1]);
        }
    }
    assert(s[pos + 1 + m] == ')') by {
        assert(whole[1 + m] == p[1 + m]);
        assert(p[1 + m] == seq![')'][0]);
    }
}

/// Two well-formed array-element types with the same printed form are the
/// same type: the canonical form determines the tree.
pub proof fn lemma_print_injective(t1: Type, t2: Type)
    requires
        wf_elem(t1),
        wf_elem(t2),
        print_type(t1) == print_type(t2),
    ensures
        t1 == t2,
{
    assert(print_type(t1) + Seq::<char>::empty() =~= print_type(t1));
    assert(print_type(t2) + Seq::<char>::empty() =~= print_type(t2));
    lemma_unambiguous(t1, Seq::<char>::empty(), t2, Seq::<char>::empty());
}

/// Printing is injective on well-formed type sequences: two sequences with
/// the same signature string are the same sequence. Together with
/// `Type::parse`'s contract this gives both round trips: printing a parse
/// result returns the input string, and parsing a printed sequence returns
/// the sequence.
pub proof fn lemma_print_types_injective(ts1: Seq<Type>, ts2: Seq<Type>)
    requires
        wf_types(ts1),
        wf_types(ts2),
        print_types(ts1) == print_types(ts2),
    ensures
        ts1 == ts2,
{
    assert(print_types(ts1) == print_types(ts2) + Seq::<char>::empty()) by {
        assert(print_types(ts2) + Seq::<char>::empty() =~= print_types(ts2));
    }
    lemma_types_prefix(ts1, ts2, Seq::<char>::empty());
    let k = ts2.len() as int;
    let rest = ts1.subrange(k, ts1.len() as int);
    if rest.len() > 0 {
        lemma_print_types_head(rest);
        assert(false);
    }
    assert(ts1 =~= ts2);
}

/// Structural equality of two types.
pub fn type_eq(a: &Type, b: &Type) -> (r: bool)
    ensures
        r == (a == b),
    decreases a,
{
    match (a, b) {
        (Type::Boolean, Type::Boolean) => true,
        (Type::Int32, Type::Int32) => true,
        (Type::UInt32, Type::UInt32) => true,
        (Type::String, Type::String) => true,
        (Type::ObjectPath, Type::ObjectPath) => true,
        (Type::Signature, Type::Signature) => true,
        (Type::UnixFd, Type::UnixFd) => true,
        (Type::Variant, Type::Variant) => true,
        (Type::Array(e1), Type::Array(e2)) => type_eq(e1, e2),
        (Type::Struct(l1), Type::Struct(l2)) => list_eq(l1, l2),
        (Type::DictEntry(k1, v1), Type::DictEntry(k2, v2)) => type_eq(k1, k2) && type_eq(v1, v2),
        _ => false,
    }
}

/// Structural equality of two field lists.
pub fn list_eq(a: &TypeList, b: &TypeList) -> (r: bool)
    ensures
        r == (a == b),
    decreases a,
{
    match (a, b) {
        (TypeList::Nil, TypeList::Nil) => true,
        (TypeList::Cons(t1, r1), TypeList::Cons(t2, r2)) => type_eq(t1, t2) && list_eq(r1, r2),
        _ => false,
    }
}

/// An owned copy of a type tree.
pub fn clone_type(t: &Type) -> (r: Type)
    ensures
        r == *t,
    decreases t,
{
    match t {
        Type::Boolean => Type::Boolean,
        Type::Int32 => Type::Int32,
        Type::UInt32 => Type::UInt32,
        Type::String => Type::String,
        Type::ObjectPath => Type::ObjectPath,
        Type::Signature => Type::Signature,
        Type::UnixFd => Type::UnixFd,
        Type::Variant => Type::Variant,
        Type::Array(e) => Type::Array(Box::new(clone_type(e))),
        Type::Struct(fs) => Type::Struct(clone_list(fs)),
        Type::DictEntry(k, v) => Type::DictEntry(Box::new(clone_type(k)), Box::new(clone_type(v))),
    }
}

/// An owned copy of a field list.
pub fn clone_list(l: &TypeList) -> (r: TypeList)
    ensures
        r == *l,
    decreases l,
{
    match l {
        TypeList::Nil => TypeList::Nil,
        TypeList::Cons(t, rest) => TypeList::Cons(Box::new(clone_type(t)), Box::new(clone_list(rest))),
    }
}

/// Whether `t` is a basic kind.
pub fn check_basic(t: &Type) -> (r: bool)
    ensures
        r == is_basic(*t),
{
    match t {
        Type::Boolean => true,
        Type::Int32 => true,
        Type::UInt32 => true,
        Type::String => true,
        Type::ObjectPath => true,
        Type::Signature => true,
        Type::UnixFd => true,
        _ => false,
    }
}

/// The fault reported for a type that is not well-formed in a general
/// position: the first one in traversal order. On a well-formed type the
/// value carries no meaning; no contract consults it there.
pub open spec fn type_error(t: Type) -> Error
    decreases t, 0int,
{
    match t {
        Type::Array(e) => elem_type_error(*e),
        Type::Struct(fs) => if fs is Nil {
            Error::EmptyStructNotAllowed
        } else {
            list_error(fs)
        },
        Type::DictEntry(_, _) => Error::DictEntryNotInArray,
        _ => Error::DictEntryNotInArray,
    }
}

/// The fault reported for a type that is not well-formed as an array's
/// element type: a misplaced or mis-keyed dict entry, or its value's fault.
pub open spec fn elem_type_error(t: Type) -> Error
    decreases t, 1int,
{
    match t {
        Type::DictEntry(k, v) => if !is_basic(*k) {
            Error::DictEntryNotInArray
        } else {
            type_error(*v)
        },
        _ => type_error(t),
    }
}

/// The fault reported for the first field in the list that is not
/// well-formed; on an all-well-formed list the value carries no meaning.
pub open spec fn list_error(l: TypeList) -> Error
    decreases l,
{
    match l {
        TypeList::Nil => Error::DictEntryNotInArray,
        TypeList::Cons(t, rest) => if !wf_type(*t) {
            type_error(*t)
        } else {
            list_error(*rest)
        },
    }
}

/// Checks that `t` may stand as an array's element type, reporting why not.
pub fn check_elem_type(t: &Type) -> (r: Result<(), Error>)
    ensures
        r is Ok <==> wf_elem(*t),
        r matches Err(e) ==> e == elem_type_error(*t),
        r matches Err(e) ==> (e is EmptyStructNotAllowed || e is DictEntryNotInArray),
    decreases t, 1int,
{
    match t {
        Type::DictEntry(k, v) => {
            if check_basic(k) {
                check_type_general(v)
            } else {
                Err(Error::DictEntryNotInArray)
            }
        },
        _ => check_type_general(t),
    }
}

/// Checks that `t` may stand in a general position (not directly below an
/// array), reporting why not.
pub fn check_type_general(t: &Type) -> (r: Result<(), Error>)
    ensures
        r is Ok <==> wf_type(*t),
        r matches Err(e) ==> e == type_error(*t),
        r matches Err(e) ==> (e is EmptyStructNotAllowed || e is DictEntryNotInArray),
    decreases t, 0int,
{
    match t {
        Type::Array(e) => check_elem_type(e),
        Type::Struct(fs) => match fs {
            TypeList::Nil => Err(Error::EmptyStructNotAllowed),
            _ => check_field_types(fs),
        },
        Type::DictEntry(_, _) => Err(Error::DictEntryNotInArray),
        _ => Ok(()),
    }
}

/// Checks every field in the list.
fn check_field_types(l: &TypeList) -> (r: Result<(), Error>)
    ensures
        r is Ok <==> wf_list(*l),
        r matches Err(e) ==> e == list_error(*l),
        r matches Err(e) ==> (e is EmptyStructNotAllowed || e is DictEntryNotInArray),
    decreases l,
{
    match l {
        TypeList::Nil => Ok(()),
        TypeList::Cons(t, rest) => match check_type_general(t) {
            Err(e) => Err(e),
            Ok(()) => check_field_types(rest),
        },
    }
}

/// The executable form of `code_basic`.
fn basic_for_code(c: char) -> (t: Type)
    requires
        is_basic_code(c),
    ensures
        t == code_basic(c),
        is_basic(t),
        wf_type(t),
        wf_elem(t),
        basic_code(t) == c,
{
    if c == 'c' {
        Type::Boolean
    } else if c == 'i' {
        Type::Int32
    } else if c == 'u' {
        Type::UInt32
    } else if c == 's' {
        Type::String
    } else if c == 'o' {
        Type::ObjectPath
    } else if c == 'g' {
        Type::Signature
    } else {
        Type::UnixFd
    }
}

/// Parses one type starting at character `pos`. `in_array` says whether the
/// position directly follows an `a`, the only place a dict entry may stand.
///
/// On success the parsed type is well-formed and its print occupies exactly
/// the consumed range; on failure no well-formed type's print starts at
/// `pos`, so the error is not a matter of the parser's choices.
fn parse_type(s: &str, pos: usize, n: usize, in_array: bool) -> (r: Result<(Type, usize), Error>)
    requires
        n == s@.len(),
        pos <= n,
    ensures
        r matches Ok((t, end)) ==> pos < end <= n && wf_for(t, in_array) && print_type(t)
            == s@.subrange(pos as int, end as int),
        r is Err ==> forall|t: Type| wf_for(t, in_array) ==> !type_at(s@, pos as int, t),
        r matches Err(e) ==> grammar_err(e, n),
    decreases n - pos, 0int,
{
    let ghost g = s@;
    let ghost gp = pos as int;
    if pos >= n {
        proof {
            assert forall|t: Type| wf_for(t, in_array) implies !type_at(g, gp, t) by {
                if type_at(g, gp, t) {
                    lemma_type_at_head(g, gp, t);
                }
            }
        }
        return Err(Error::InvalidSignature(pos));
    }
    let c = s.get_char(pos);
    if c == 'c' || c == 'i' || c == 'u' || c == 's' || c == 'o' || c == 'g' || c == 'h' {
        let t = basic_for_code(c);
        proof {
            lemma_print_basic(t);
            lemma_one_char(g, gp);
        }
        return Ok((t, pos + 1));
    }
    if c == 'v' {
        proof {
            lemma_one_char(g, gp);
        }
        return Ok((Type::Variant, pos + 1));
    }
    if c == 'a' {
        match parse_type(s, pos + 1, n, true) {
            Ok((elem, end)) => {
                let t = Type::Array(Box::new(elem));
                proof {
                    assert(print_type(t) == seq!['a'] + print_type(elem));
                    lemma_one_char(g, gp);
                    lemma_join_at(g, gp, gp + 1, end as int);
                    assert(g.subrange(gp, gp + 1) == seq!['a']);
                    assert(print_type(t) == g.subrange(gp, end as int));
                }
                Ok((t, end))
            },
            Err(e) => {
                proof {
                    assert forall|t: Type| wf_for(t, in_array) implies !type_at(g, gp, t) by {
                        if type_at(g, gp, t) {
                            lemma_type_at_head(g, gp, t);
                            assert(t is Array);
                            let e2 = t->Array_0;
                            assert(print_type(t) == seq!['a'] + print_type(*e2));
                            assert(print_type(t).len() == 1 + print_type(*e2).len());
                            lemma_split_at(g, gp, seq!['a'], print_type(*e2));
                            assert(type_at(g, gp + 1, *e2));
                            assert(wf_elem(*e2));
                            assert(wf_for(*e2, true));
                            assert(false);
                        }
                    }
                }
                Err(e)
            },
        }
    } else if c == '(' {
        match parse_fields(s, pos + 1, n) {
            Ok((l, end)) => {
                match l {
                    TypeList::Nil => {
                        proof {
                            assert(end == pos + 1);
                            assert forall|t: Type| wf_for(t, in_array) implies !type_at(
                                g,
                                gp,
                                t,
                            ) by {
                                if type_at(g, gp, t) {
                                    lemma_type_at_head(g, gp, t);
                                    assert(t is Struct);
                                    let fs2 = t->Struct_0;
                                    assert(fs2 is Cons && wf_list(fs2));
                                    lemma_struct_at(g, gp, fs2);
                                    let h = fs2->Cons_0;
                                    lemma_print_head(*h);
                                    assert(print_list(fs2) == print_type(*h) + print_list(
                                        *fs2->Cons_1,
                                    ));
                                    assert(print_list(fs2)[0] == head_char(*h));
                                    assert(g.subrange(
                                        gp + 1,
                                        gp + 1 + print_list(fs2).len() as int,
                                    )[0] == g[gp + 1]);
                                    assert(g[gp + 1] == head_char(*h));
                                    assert(g[gp + 1] == ')');
                                    assert(false);
                                }
                            }
                        }
                        Err(Error::InvalidSignature(pos + 1))
                    },
                    fields => {
                        let t = Type::Struct(fields);
                        proof {
                            let ge = end as int;
                            assert(t->Struct_0 is Cons);
                            lemma_one_char(g, gp);
                            lemma_one_char(g, ge);
                            lemma_join_at(g, gp, gp + 1, ge + 1);
                            lemma_join_at(g, gp + 1, ge, ge + 1);
                            assert(g.subrange(gp, gp + 1) == seq!['(']);
                            assert(g.subrange(ge, ge + 1) == seq![')']);
                            assert(print_type(t) == seq!['('] + print_list(t->Struct_0) + seq![
                                ')',
                            ]);
                            assert(print_type(t) =~= g.subrange(gp, ge + 1));
                        }
                        Ok((t, end + 1))
                    },
                }
            },
            Err(e) => {
                proof {
                    assert forall|t: Type| wf_for(t, in_array) implies !type_at(g, gp, t) by {
                        if type_at(g, gp, t) {
                            lemma_type_at_head(g, gp, t);
                            assert(t is Struct);
                            let fs2 = t->Struct_0;
                            assert(fs2 is Cons && wf_list(fs2));
                            lemma_struct_at(g, gp, fs2);
                            assert(false);
                        }
                    }
                }
                Err(e)
            },
        }
    } else if c == '{' {
        if !in_array {
            proof {
                assert forall|t: Type| wf_for(t, in_array) implies !type_at(g, gp, t) by {
                    if type_at(g, gp, t) {
                        lemma_type_at_head(g, gp, t);
                        assert(t is DictEntry);
                        assert(!wf_type(t));
                        assert(false);
                    }
                }
            }
            return Err(Error::InvalidSignature(pos));
        }
        if pos + 1 >= n {
            proof {
                assert forall|t: Type| wf_for(t, in_array) implies !type_at(g, gp, t) by {
                    if type_at(g, gp, t) {
                        lemma_type_at_head(g, gp, t);
                        assert(t is DictEntry);
                        let k2 = t->DictEntry_0;
                        let v2 = t->DictEntry_1;
                        lemma_print_head(*k2);
                        lemma_print_head(*v2);
                        assert(print_type(t) == seq!['{'] + print_type(*k2) + print_type(*v2)
                            + seq!['}']);
                        assert((seq!['{'] + print_type(*k2)).len() == 1 + print_type(*k2).len());
                        assert((seq!['{'] + print_type(*k2) + print_type(*v2)).len() == 1
                            + print_type(*k2).len() + print_type(*v2).len());
                        assert(print_type(t).len() >= 4);
                        assert(false);
                    }
                }
            }
            return Err(Error::UnmatchedDelimiter);
        }
        let kc = s.get_char(pos + 1);
        if !(kc == 'c' || kc == 'i' || kc == 'u' || kc == 's' || kc == 'o' || kc == 'g' || kc
            == 'h') {
            proof {
                assert forall|t: Type| wf_for(t, in_array) implies !type_at(g, gp, t) by {
                    if type_at(g, gp, t) {
                        lemma_dict_at(g, gp, t);
                        let k2 = t->DictEntry_0;
                        assert(g[gp + 1] == basic_code(*k2));
                        assert(is_basic_code(g[gp + 1]));
                        assert(false);
                    }
                }
            }
            return Err(Error::InvalidSignature(pos + 1));
        }
        let key = basic_for_code(kc);
        match parse_type(s, pos + 2, n, false) {
            Err(e) => {
                proof {
                    assert forall|t: Type| wf_for(t, in_array) implies !type_at(g, gp, t) by {
                        if type_at(g, gp, t) {
                            lemma_dict_at(g, gp, t);
                            assert(wf_for(*t->DictEntry_1, false));
                            assert(false);
                        }
                    }
                }
                Err(e)
            },
            Ok((val, p2)) => {
                let ghost gq = p2 as int;
                proof {
                    assert(print_type(val) == g.subrange(gp + 2, gq));
                }
                if p2 >= n || s.get_char(p2) != '}' {
                    let missing_close = p2 >= n;
                    proof {
                        assert forall|t: Type| wf_for(t, in_array) implies !type_at(g, gp, t) by {
                            if type_at(g, gp, t) {
                                lemma_dict_at(g, gp, t);
                                let v2 = t->DictEntry_1;
                                let m2 = print_type(*v2).len() as int;
                                lemma_join_at(g, gp + 2, gp + 2 + m2, n as int);
                                lemma_join_at(g, gp + 2, gq, n as int);
                                assert(g.subrange(gp + 2, n as int) == print_type(*v2)
                                    + g.subrange(gp + 2 + m2, n as int));
                                assert(g.subrange(gp + 2, n as int) == print_type(val)
                                    + g.subrange(gq, n as int));
                                lemma_wf_type_elem(*v2);
                                lemma_wf_type_elem(val);
                                lemma_unambiguous(
                                    *v2,
                                    g.subrange(gp + 2 + m2, n as int),
                                    val,
                                    g.subrange(gq, n as int),
                                );
                                assert(gp + 2 + m2 == gq);
                                assert(g[gq] == '}');
                                assert(gq + 1 <= n);
                                assert(false);
                            }
                        }
                    }
                    if missing_close {
                        Err(Error::UnmatchedDelimiter)
                    } else {
                        Err(Error::InvalidSignature(p2))
                    }
                } else {
                    let t = Type::DictEntry(Box::new(key), Box::new(val));
                    proof {
                        lemma_one_char(g, gp);
                        lemma_one_char(g, gp + 1);
                        lemma_one_char(g, gq);
                        lemma_join_at(g, gp, gp + 1, gq + 1);
                        lemma_join_at(g, gp + 1, gp + 2, gq + 1);
                        lemma_join_at(g, gp + 2, gq, gq + 1);
                        lemma_print_basic(key);
                        assert(print_type(t) == seq!['{'] + print_type(key) + print_type(val)
                            + seq!['}']);
                        assert(g.subrange(gp, gp + 1) == seq!['{']);
                        assert(g.subrange(gp + 1, gp + 2) == seq![kc]);
                        assert(g.subrange(gq, gq + 1) == seq!['}']);
                        assert(print_type(t) =~= g.subrange(gp, gq + 1));
                        assert(wf_elem(t));
                    }
                    Ok((t, p2 + 1))
                }
            },
        }
    } else {
        proof {
            assert forall|t: Type| wf_for(t, in_array) implies !type_at(g, gp, t) by {
                if type_at(g, gp, t) {
                    lemma_type_at_head(g, gp, t);
                    assert(is_basic_code(head_char(t)) || head_char(t) == 'v' || head_char(t)
                        == 'a' || head_char(t) == '(' || head_char(t) == '{');
                    assert(false);
                }
            }
        }
        Err(Error::InvalidSignature(pos))
    }
}

/// If a dict-entry type's print occupies `s` at `pos`, then its key letter
/// stands at `pos + 1` and its value type's print starts at `pos + 2`.
proof fn lemma_dict_at(s: Seq<char>, pos: int, t: Type)
    requires
        0 <= pos,
        type_at(s, pos, t),
        wf_elem(t),
        s[pos] == '{',
    ensures
        t is DictEntry,
        is_basic(*t->DictEntry_0),
        wf_type(*t->DictEntry_1),
        pos + 3 + print_type(*t->DictEntry_1).len() <= s.len(),
        s[pos + 1] == basic_code(*t->DictEntry_0),
        type_at(s, pos + 2, *t->DictEntry_1),
        s[pos + 2 + print_type(*t->DictEntry_1).len()] == '}',
{
    lemma_type_at_head(s, pos, t);
    assert(t is DictEntry);
    let k2 = t->DictEntry_0;
    let v2 = t->DictEntry_1;
    lemma_print_basic(*k2);
    let pv = print_type(*v2);
    assert(print_type(t) == seq!['{'] + seq![basic_code(*k2)] + pv + seq!['}']);
    assert(print_type(t) =~= (seq!['{'] + seq![basic_code(*k2)]) + (pv + seq!['}'])) by {
        assert((seq!['{'] + seq![basic_code(*k2)]).len() == 2);
    }
    assert((pv + seq!['}']).len() == pv.len() + 1);
    lemma_split_at(s, pos, seq!['{'] + seq![basic_code(*k2)], pv + seq!['}']);
    assert(s[pos + 1] == basic_code(*k2)) by {
        assert(s.subrange(pos, pos + 2)[1] == s[pos + 1]);
        assert((seq!['{'] + seq![basic_code(*k2)])[1] == basic_code(*k2));
    }
    lemma_split_at(s, pos + 2, pv, seq!['}']);
    assert(type_at(s, pos + 2, *v2));
    assert(s[pos + 2 + pv.len()] == '}') by {
        assert(s.subrange(pos + 2 + pv.len(), pos + 3 + pv.len())[0] == s[pos + 2 + pv.len()]);
        assert(seq!['}'][0] == '}');
    }
}

/// Parses the fields of a struct, stopping just before the closing `)`.
///
/// On success the list's prints occupy exactly `pos..end` and a `)` stands
/// at `end`; on failure no well-formed field list closed by a `)` starts at
/// `pos`.
fn parse_fields(s: &str, pos: usize, n: usize) -> (r: Result<(TypeList, usize), Error>)
    requires
        n == s@.len(),
        pos <= n,
    ensures
        r matches Ok((l, end)) ==> pos <= end < n && wf_list(l) && print_list(l) == s@.subrange(
            pos as int,
            end as int,
        ) && s@[end as int] == ')',
        r is Err ==> forall|l: TypeList| wf_list(l) ==> !fields_at(s@, pos as int, l),
        r matches Err(e) ==> grammar_err(e, n),
    decreases n - pos, 1int,
{
    let ghost g = s@;
    let ghost gp = pos as int;
    if pos >= n {
        proof {
            assert forall|l: TypeList| wf_list(l) implies !fields_at(g, gp, l) by {}
        }
        return Err(Error::UnmatchedDelimiter);
    }
    let c = s.get_char(pos);
    if c == ')' {
        proof {
            assert(print_list(TypeList::Nil) =~= g.subrange(gp, gp));
        }
        return Ok((TypeList::Nil, pos));
    }
    match parse_type(s, pos, n, false) {
        Err(e) => {
            proof {
                assert forall|l: TypeList| wf_list(l) implies !fields_at(g, gp, l) by {
                    if fields_at(g, gp, l) {
                        match l {
                            TypeList::Nil => {
                                assert(g[gp] == ')');
                                assert(false);
                            },
                            TypeList::Cons(h, rest) => {
                                lemma_fields_at_head(g, gp, h, rest);
                                assert(wf_type(*h));
                                assert(wf_for(*h, false));
                                assert(false);
                            },
                        }
                    }
                }
            }
            Err(e)
        },
        Ok((t, p2)) => {
            let ghost gq = p2 as int;
            match parse_fields(s, p2, n) {
                Err(e) => {
                    proof {
                        assert forall|l: TypeList| wf_list(l) implies !fields_at(g, gp, l) by {
                            if fields_at(g, gp, l) {
                                match l {
                                    TypeList::Nil => {
                                        assert(g[gp] == ')');
                                        assert(false);
                                    },
                                    TypeList::Cons(h, rest) => {
                                        lemma_fields_at_head(g, gp, h, rest);
                                        assert(wf_type(*h) && wf_list(*rest));
                                        let m = print_list(l).len() as int;
                                        let mh = print_type(*h).len() as int;
                                        let mr = print_list(*rest).len() as int;
                                        assert(print_list(l) == print_type(*h) + print_list(
                                            *rest,
                                        ));
                                        assert(m == mh + mr);
                                        lemma_join_at(g, gp, gp + mh, n as int);
                                        lemma_join_at(g, gp, gq, n as int);
                                        assert(g.subrange(gp, n as int) == print_type(*h)
                                            + g.subrange(gp + mh, n as int));
                                        assert(g.subrange(gp, n as int) == print_type(t)
                                            + g.subrange(gq, n as int));
                                        lemma_wf_type_elem(*h);
                                        lemma_wf_type_elem(t);
                                        lemma_unambiguous(
                                            *h,
                                            g.subrange(gp + mh, n as int),
                                            t,
                                            g.subrange(gq, n as int),
                                        );
                                        assert(gp + mh == gq);
                                        lemma_split_at(g, gp, print_type(*h), print_list(*rest));
                                        assert(g.subrange(gq, gq + mr) == print_list(*rest));
                                        assert(g[gq + mr] == ')');
                                        assert(fields_at(g, gq, *rest));
                                        assert(false);
                                    },
                                }
                            }
                        }
                    }
                    Err(e)
                },
                Ok((rest, end)) => {
                    let l = TypeList::Cons(Box::new(t), Box::new(rest));
                    proof {
                        let ge = end as int;
                        lemma_join_at(g, gp, gq, ge);
                        assert(print_list(l) == print_type(t) + print_list(*l->Cons_1));
                        assert(print_list(l) == g.subrange(gp, ge));
                    }
                    Ok((l, end))
                },
            }
        },
    }
}

/// If a non-empty field list's prints occupy `s` at `pos`, the head type's
/// print occupies `s` at `pos`.
proof fn lemma_fields_at_head(s: Seq<char>, pos: int, h: Box<Type>, rest: Box<TypeList>)
    requires
        0 <= pos,
        fields_at(s, pos, TypeList::Cons(h, rest)),
    ensures
        type_at(s, pos, *h),
{
    let l = TypeList::Cons(h, rest);
    assert(print_list(l) == print_type(*h) + print_list(*rest));
    assert(print_list(l).len() == print_type(*h).len() + print_list(*rest).len());
    lemma_split_at(s, pos, print_type(*h), print_list(*rest));
}

/// Appends the canonical form of every field in `l` to `buf`.
fn write_list(l: &TypeList, buf: &mut String)
    ensures
        final(buf)@ == old(buf)@ + print_list(*l),
    decreases *l,
{
    match l {
        TypeList::Nil => {
            proof {
                assert(final(buf)@ =~= old(buf)@ + print_list(*l));
            }
        },
        TypeList::Cons(t, rest) => {
            write_type(t, buf);
            write_list(rest, buf);
            proof {
                assert(final(buf)@ =~= old(buf)@ + print_list(*l));
            }
        },
    }
}

} // verus!
