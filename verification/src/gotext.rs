//! The Go text this backend produces, stated as functions of the type model.
//! Each executable helper mirrors one of these spec functions exactly.

use vstd::prelude::*;
use vstd::string::StrSliceExecFns;
use vstd::string::StringExecFns;
use crate::model::{Docs, Field, Flags, Int, Record, Resource, Type, TypeDef, TypeDefKind};
use crate::names::{camel_of, to_camel};
use crate::source::Source;

verus! {

/// The whitespace that documentation trimming removes.
pub open spec fn is_doc_space(c: char) -> bool {
    c == ' ' || c == '\t' || c == '\n' || c == '\r'
}

pub open spec fn trim_front_s(s: Seq<char>) -> Seq<char>
    decreases s.len(),
{
    if s.len() > 0 && is_doc_space(s[0]) {
        trim_front_s(s.drop_first())
    } else {
        s
    }
}

pub open spec fn trim_back_s(s: Seq<char>) -> Seq<char>
    decreases s.len(),
{
    if s.len() > 0 && is_doc_space(s.last()) {
        trim_back_s(s.drop_last())
    } else {
        s
    }
}

pub open spec fn trim_s(s: Seq<char>) -> Seq<char> {
    trim_back_s(trim_front_s(s))
}

/// Index of the first newline, or the length if there is none.
pub open spec fn nl_index_s(s: Seq<char>) -> int
    decreases s.len(),
{
    if s.len() == 0 {
        0
    } else if s[0] == '\n' {
        0
    } else {
        1 + nl_index_s(s.drop_first())
    }
}

pub proof fn lemma_nl_index_bounds(s: Seq<char>)
    ensures
        0 <= nl_index_s(s) <= s.len(),
    decreases s.len(),
{
    if s.len() > 0 && s[0] != '\n' {
        lemma_nl_index_bounds(s.drop_first());
    }
}

/// A line with a trailing carriage return loses it.
pub open spec fn strip_cr(l: Seq<char>) -> Seq<char> {
    if l.len() > 0 && l.last() == '\r' {
        l.drop_last()
    } else {
        l
    }
}

/// Each line of `s` as one `// ` comment line.
pub open spec fn doc_lines_text(s: Seq<char>) -> Seq<char>
    decreases s.len(),
{
    if s.len() == 0 {
        Seq::empty()
    } else {
        let i = nl_index_s(s);
        let line = strip_cr(s.take(i));
        let rest = if 0 <= i < s.len() {
            s.skip(i + 1)
        } else {
            Seq::empty()
        };
        "// "@ + line + "\n"@ + doc_lines_text(rest)
    }
}

/// The comment block a `Docs` value prints as.
pub open spec fn doc_text(d: Docs) -> Seq<char> {
    match d.contents {
        Option::Some(c) => doc_lines_text(trim_s(c@)),
        Option::None => Seq::empty(),
    }
}

/// The Go name of a type reference, if this backend can print one: named
/// composites print their CamelCase name, scalars their Go spelling; unnamed
/// aliases and lists are traversed, unnamed flags print `Type`, and the rest
/// are unsupported. The fuel bounds traversal through unnamed definitions.
pub open spec fn go_name_rec(
    types: Seq<TypeDef>,
    resources: Seq<Resource>,
    t: Type,
    fuel: nat,
) -> Option<Seq<char>>
    decreases fuel,
{
    match t {
        Type::Unit => Option::Some("struct{}"@),
        Type::Bool => Option::Some("bool"@),
        Type::Char => Option::Some("rune"@),
        Type::U8 => Option::Some("byte"@),
        Type::S8 => Option::Some("int8"@),
        Type::U16 => Option::Some("uint16"@),
        Type::S16 => Option::Some("int16"@),
        Type::U32 => Option::Some("uint32"@),
        Type::S32 => Option::Some("int32"@),
        Type::U64 => Option::Some("uint64"@),
        Type::S64 => Option::Some("int64"@),
        Type::Float32 => Option::Some("float32"@),
        Type::Float64 => Option::Some("float64"@),
        Type::Str => Option::Some("string"@),
        Type::Handle(r) => Option::Some(camel_of(resources[r as int].name@)),
        Type::Id(i) => match types[i as int].name {
            Option::Some(n) => Option::Some(camel_of(n@)),
            Option::None => {
                if fuel == 0 {
                    Option::None
                } else {
                    match types[i as int].kind {
                        TypeDefKind::Alias(t2) => go_name_rec(types, resources, t2, (fuel
                            - 1) as nat),
                        TypeDefKind::Flags(_) => Option::Some("Type"@),
                        TypeDefKind::List(t2) => match go_name_rec(
                            types,
                            resources,
                            t2,
                            (fuel - 1) as nat,
                        ) {
                            Option::Some(s) => Option::Some("[]"@ + s),
                            Option::None => Option::None,
                        },
                        _ => Option::None,
                    }
                }
            },
        },
    }
}

/// The Go name of a type reference; the traversal budget is the table size,
/// which covers every acyclic chain of unnamed definitions.
pub open spec fn go_name(types: Seq<TypeDef>, resources: Seq<Resource>, t: Type) -> Option<
    Seq<char>,
> {
    go_name_rec(types, resources, t, types.len())
}

/// One `\tName Type\n` line of a record declaration; empty name for an
/// unsupported field type (such a record never reaches the cache).
pub open spec fn field_line(types: Seq<TypeDef>, resources: Seq<Resource>, f: Field) -> Seq<char> {
    let tn = match go_name(types, resources, f.ty) {
        Option::Some(s) => s,
        Option::None => Seq::empty(),
    };
    "\t"@ + camel_of(f.name@) + " "@ + tn + "\n"@
}

/// The first `n` field lines, in declaration order.
pub open spec fn fields_text(
    types: Seq<TypeDef>,
    resources: Seq<Resource>,
    fields: Seq<Field>,
    n: nat,
) -> Seq<char>
    decreases n,
{
    if n == 0 {
        Seq::empty()
    } else {
        fields_text(types, resources, fields, (n - 1) as nat) + field_line(
            types,
            resources,
            fields[n - 1],
        )
    }
}

/// Whether every field's type can be printed.
pub open spec fn fields_ok(types: Seq<TypeDef>, resources: Seq<Resource>, fields: Seq<Field>) -> bool {
    forall|i: int|
        0 <= i < fields.len() ==> go_name(types, resources, (#[trigger] fields[i]).ty) is Some
}


/// The Go spelling of an integer representation.
pub open spec fn int_repr_s(ty: Int) -> Seq<char> {
    match ty {
        Int::U8 => "uint8"@,
        Int::U16 => "uint16"@,
        Int::U32 => "uint32"@,
        Int::U64 => "uint64"@,
    }
}

/// The smallest representation covering `n` flag bits, as the Go emitter
/// spells it: one unsigned word of 8, 16 or 32 bits, or a 64-bit word
/// standing for two 32-bit words.
pub open spec fn flags_repr_s(n: nat) -> Int {
    if n <= 8 {
        Int::U8
    } else if n <= 16 {
        Int::U16
    } else if n <= 32 {
        Int::U32
    } else {
        Int::U64
    }
}

/// The whole cached declaration of a record.
pub open spec fn record_decl(
    types: Seq<TypeDef>,
    resources: Seq<Resource>,
    name: Seq<char>,
    r: Record,
    d: Docs,
) -> Seq<char> {
    doc_text(d) + "type "@ + camel_of(name) + " struct {\n"@ + fields_text(
        types,
        resources,
        r.fields@,
        r.fields@.len(),
    ) + "}\n\n"@
}

/// One line of the flag-constant block; the first line sets the iota pattern.
pub open spec fn flag_line(name: Seq<char>, flags: Seq<String>, i: int) -> Seq<char> {
    let fname = name + camel_of(flags[i]@);
    if i == 0 {
        fname + " "@ + name + "Type = 1 << iota\n"@
    } else {
        fname + "\n"@
    }
}

/// The first `n` flag-constant lines, in declaration order.
pub open spec fn flag_lines(name: Seq<char>, flags: Seq<String>, n: nat) -> Seq<char>
    decreases n,
{
    if n == 0 {
        Seq::empty()
    } else {
        flag_lines(name, flags, (n - 1) as nat) + flag_line(name, flags, n - 1)
    }
}

/// The whole cached declaration of a flags type.
pub open spec fn flags_decl(name: Seq<char>, f: Flags, d: Docs) -> Seq<char> {
    doc_text(d) + "type "@ + name + "Type "@ + int_repr_s(flags_repr_s(f.flags@.len()))
        + "\n\n"@ + "const (\n"@ + flag_lines(name, f.flags@, f.flags@.len()) + ")\n\n"@
}

/// The identifiers a flags declaration claims: the type name, then one
/// constant per flag.
pub open spec fn flags_names(name: Seq<char>, flags: Seq<String>) -> Seq<Seq<char>> {
    Seq::new(
        flags.len() + 1,
        |i: int|
            if i == 0 {
                name + "Type"@
            } else {
                name + camel_of(flags[i - 1]@)
            },
    )
}

/// The inline declaration of a named list type; a list of characters prints
/// as a Go string.
pub open spec fn list_decl(
    types: Seq<TypeDef>,
    resources: Seq<Resource>,
    name: Seq<char>,
    ty: Type,
    d: Docs,
) -> Seq<char> {
    let body = if ty == Type::Char {
        "type "@ + camel_of(name) + "string"@
    } else {
        let en = match go_name(types, resources, ty) {
            Option::Some(s) => s,
            Option::None => Seq::empty(),
        };
        "type "@ + camel_of(name) + " []"@ + en
    };
    doc_text(d) + body + "\n"@
}

/// Whether a list declaration can be printed.
pub open spec fn list_ok(types: Seq<TypeDef>, resources: Seq<Resource>, ty: Type) -> bool {
    ty == Type::Char || go_name(types, resources, ty) is Some
}

/// The `package` line an interface opens with.
pub open spec fn package_line(name: Seq<char>) -> Seq<char> {
    "package "@ + crate::names::snake_of(name) + "\n\n"@
}

/// Whether a type resolves, through aliases, to a record with no fields.
pub open spec fn is_empty_rec(types: Seq<TypeDef>, t: Type, fuel: nat) -> bool
    decreases fuel,
{
    match t {
        Type::Id(i) => {
            if fuel == 0 {
                false
            } else {
                match types[i as int].kind {
                    TypeDefKind::Alias(t2) => is_empty_rec(types, t2, (fuel - 1) as nat),
                    TypeDefKind::Record(r) => r.fields@.len() == 0,
                    _ => false,
                }
            }
        },
        _ => false,
    }
}

/// Whether a type is observably empty.
pub open spec fn is_empty_type_s(types: Seq<TypeDef>, t: Type) -> bool {
    is_empty_rec(types, t, types.len())
}

/// Executable mirror of `is_empty_rec`.
pub(crate) fn is_empty_x(types: &Vec<TypeDef>, resources: &Vec<Resource>, t: &Type, fuel: usize) -> (r: bool)
    requires
        t.wf(types@.len(), resources@.len()),
        crate::model::wf_types(types@, resources@.len()),
    ensures
        r == is_empty_rec(types@, *t, fuel as nat),
    decreases fuel,
{
    match t {
        Type::Id(i) => {
            if fuel == 0 {
                false
            } else {
                match &types[*i].kind {
                    TypeDefKind::Alias(t2) => is_empty_x(types, resources, t2, fuel - 1),
                    TypeDefKind::Record(r) => r.fields.len() == 0,
                    _ => false,
                }
            }
        },
        _ => false,
    }
}

/// Executable mirror of `is_doc_space`.
pub(crate) fn is_doc_space_x(c: char) -> (r: bool)
    ensures
        r == is_doc_space(c),
{
    c == ' ' || c == '\t' || c == '\n' || c == '\r'
}

/// Executable mirror of `trim_front_s`.
pub(crate) fn trim_front_x(s: &str) -> (r: &str)
    ensures
        r@ == trim_front_s(s@),
    decreases s@.len(),
{
    let len = s.unicode_len();
    if len > 0 && is_doc_space_x(s.get_char(0)) {
        let rest = s.substring_char(1, len);
        assert(rest@ =~= s@.drop_first());
        trim_front_x(rest)
    } else {
        s
    }
}

/// Executable mirror of `trim_back_s`.
pub(crate) fn trim_back_x(s: &str) -> (r: &str)
    ensures
        r@ == trim_back_s(s@),
    decreases s@.len(),
{
    let len = s.unicode_len();
    if len > 0 && is_doc_space_x(s.get_char(len - 1)) {
        let rest = s.substring_char(0, len - 1);
        assert(rest@ =~= s@.drop_last());
        trim_back_x(rest)
    } else {
        s
    }
}

/// Executable mirror of `nl_index_s`.
pub(crate) fn nl_index_x(s: &str) -> (r: usize)
    ensures
        r as int == nl_index_s(s@),
        r <= s@.len(),
    decreases s@.len(),
{
    let len = s.unicode_len();
    if len == 0 {
        0
    } else if s.get_char(0) == '\n' {
        0
    } else {
        let rest = s.substring_char(1, len);
        assert(rest@ =~= s@.drop_first());
        let i = nl_index_x(rest);
        proof {
            lemma_nl_index_bounds(rest@);
        }
        1 + i
    }
}

/// Append `s` to `out` as `// ` comment lines; mirrors `doc_lines_text`.
pub(crate) fn emit_doc_lines(out: &mut Source, s: &str)
    ensures
        final(out)@ == old(out)@ + doc_lines_text(s@),
    decreases s@.len(),
{
    let len = s.unicode_len();
    if len == 0 {
        assert(old(out)@ + doc_lines_text(s@) =~= old(out)@);
        return ;
    }
    let i = nl_index_x(s);
    proof {
        lemma_nl_index_bounds(s@);
    }
    let line = if i > 0 && s.get_char(i - 1) == '\r' {
        let l = s.substring_char(0, i - 1);
        assert(l@ =~= strip_cr(s@.take(i as int)));
        l
    } else {
        let l = s.substring_char(0, i);
        assert(l@ =~= strip_cr(s@.take(i as int)));
        l
    };
    out.go("// ");
    out.go(line);
    out.go("\n");
    if i < len {
        let rest = s.substring_char(i + 1, len);
        assert(rest@ =~= s@.skip(i + 1));
        emit_doc_lines(out, rest);
    } else {
        assert(doc_lines_text(Seq::<char>::empty()) =~= Seq::<char>::empty());
    }
    assert(out@ =~= old(out)@ + doc_lines_text(s@));
}

/// Append the comment block of `d` to `out`; mirrors `doc_text`.
pub(crate) fn emit_docs(out: &mut Source, d: &Docs)
    ensures
        final(out)@ == old(out)@ + doc_text(*d),
{
    match &d.contents {
        Option::Some(c) => {
            let t = trim_back_x(trim_front_x(c.as_str()));
            emit_doc_lines(out, t);
        },
        Option::None => {
            assert(old(out)@ + doc_text(*d) =~= old(out)@);
        },
    }
}

/// The Go name of `t`, appended to a fresh string; mirrors `go_name_rec`.
/// Fails exactly where the spec has no name.
pub(crate) fn type_name_x(
    types: &Vec<TypeDef>,
    resources: &Vec<Resource>,
    t: &Type,
    fuel: usize,
) -> (r: Result<String, crate::Error>)
    requires
        t.wf(types@.len(), resources@.len()),
        crate::model::wf_types(types@, resources@.len()),
    ensures
        match r {
            Result::Ok(s) => go_name_rec(types@, resources@, *t, fuel as nat) == Option::Some(
                s@,
            ),
            Result::Err(e) => go_name_rec(types@, resources@, *t, fuel as nat) is None && e
                == crate::Error::Unsupported,
        },
    decreases fuel,
{
    match t {
        Type::Unit => Ok(String::from_str("struct{}")),
        Type::Bool => Ok(String::from_str("bool")),
        Type::Char => Ok(String::from_str("rune")),
        Type::U8 => Ok(String::from_str("byte")),
        Type::S8 => Ok(String::from_str("int8")),
        Type::U16 => Ok(String::from_str("uint16")),
        Type::S16 => Ok(String::from_str("int16")),
        Type::U32 => Ok(String::from_str("uint32")),
        Type::S32 => Ok(String::from_str("int32")),
        Type::U64 => Ok(String::from_str("uint64")),
        Type::S64 => Ok(String::from_str("int64")),
        Type::Float32 => Ok(String::from_str("float32")),
        Type::Float64 => Ok(String::from_str("float64")),
        Type::Str => Ok(String::from_str("string")),
        Type::Handle(r) => Ok(to_camel(resources[*r].name.as_str())),
        Type::Id(i) => {
            let td = &types[*i];
            match &td.name {
                Option::Some(n) => Ok(to_camel(n.as_str())),
                Option::None => {
                    if fuel == 0 {
                        Err(crate::Error::Unsupported)
                    } else {
                        match &td.kind {
                            TypeDefKind::Alias(t2) => type_name_x(types, resources, t2, fuel - 1),
                            TypeDefKind::Flags(_) => Ok(String::from_str("Type")),
                            TypeDefKind::List(t2) => match type_name_x(
                                types,
                                resources,
                                t2,
                                fuel - 1,
                            ) {
                                Ok(s) => Ok(String::from_str("[]").concat(s.as_str())),
                                Err(e) => Err(e),
                            },
                            _ => Err(crate::Error::Unsupported),
                        }
                    }
                },
            }
        },
    }
}

} // verus!
