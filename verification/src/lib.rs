//! A TinyGo backend for an interface-description compiler: it computes the
//! canonical ABI of every interface type (in-memory layout, flattened core
//! words, and the lowering/lifting plans that move values across the
//! module/host boundary) and emits Go declarations for the supported type
//! definitions.

use vstd::prelude::*;
use vstd::pervasive::VecAdditionalExecFns;
use vstd::string::StrSliceExecFns;
use vstd::string::StringExecFns;

pub mod abi;
pub mod gotext;
pub mod layout;
pub mod marshal;
pub mod model;
pub mod names;
pub mod ns;
pub mod sink;
pub mod source;
pub mod topo;

use crate::gotext::{
    doc_text, fields_ok, fields_text, field_line, flag_line, flag_lines, flags_decl, flags_names,
    flags_repr_s, go_name, int_repr_s, is_empty_type_s, list_decl, list_ok, package_line,
    record_decl, emit_docs, is_empty_x, type_name_x,
};
use crate::model::{Direction, Docs, Flags, Function, Int, Interface, Record, Type};
use crate::names::{camel_of, snake_of, to_camel, to_snake};
use crate::ns::{claim_all, contains_name, str_views, Ns};
use crate::sink::Files;
use crate::source::Source;
use crate::topo::{acyclic, topological_types, valid_order};

verus! {

/// The failures this library reports; none of its functions panic.
#[derive(Clone, Copy, PartialEq, Eq, Structural, Debug)]
pub enum Error {
    /// A construct this backend does not support yet.
    Unsupported,
    /// An asynchronous function reached the generator; a configuration
    /// failure, rejected outright.
    AsyncFunction,
    /// A generated identifier was already claimed in the namespace.
    Collision,
    /// The type graph has a reference cycle, so no topological order exists.
    CyclicTypes,
    /// A computed layout exceeds the address space of the boundary.
    TooLarge,
}

/// Options configuring the generated output.
#[derive(Clone, Copy, Debug)]
pub struct Opts {
    /// Whether the caller should pipe each output unit through `gofmt`.
    pub gofmt: bool,
}

impl Default for Opts {
    fn default() -> (r: Opts)
        ensures
            !r.gofmt,
    {
        Opts { gofmt: false }
    }
}

/// The TinyGo generator: an accumulating source buffer, the claimed
/// namespace, and a per-type declaration cache assembled topologically at the
/// end.
pub struct TinyGo {
    src: Source,
    opts: Opts,
    names: Ns,
    types: Vec<Option<String>>,
}

impl Opts {
    pub fn build(&self) -> (r: TinyGo)
        ensures
            r.wants_gofmt() == self.gofmt,
            r.src_text() == Seq::<char>::empty(),
            r.claimed_names() == Seq::<Seq<char>>::empty(),
            r.decls() == Seq::<Option<Seq<char>>>::empty(),
    {
        let mut r = TinyGo::new();
        r.opts = *self;
        r
    }
}

impl TinyGo {
    /// The text accumulated in the main source buffer.
    pub closed spec fn src_text(self) -> Seq<char> {
        self.src@
    }

    /// The identifiers claimed so far.
    pub closed spec fn claimed_names(self) -> Seq<Seq<char>> {
        self.names@
    }

    /// The per-type declaration cache.
    pub closed spec fn decls(self) -> Seq<Option<Seq<char>>> {
        Seq::new(
            self.types@.len(),
            |i: int|
                match self.types@[i] {
                    Option::Some(s) => Option::Some(s@),
                    Option::None => Option::None,
                },
        )
    }

    /// Whether the caller asked for a `gofmt` pass.
    pub closed spec fn wants_gofmt(self) -> bool {
        self.opts.gofmt
    }

    pub open spec fn claimed(self, name: Seq<char>) -> bool {
        contains_name(self.claimed_names(), name)
    }

    /// Two generator states that cannot be told apart: same source text,
    /// claimed names, cached declarations and options.
    pub open spec fn same_state(self, other: TinyGo) -> bool {
        &&& self.src_text() == other.src_text()
        &&& self.claimed_names() == other.claimed_names()
        &&& self.decls() == other.decls()
        &&& self.wants_gofmt() == other.wants_gofmt()
    }

    pub fn new() -> (r: TinyGo)
        ensures
            !r.wants_gofmt(),
            r.src_text() == Seq::<char>::empty(),
            r.claimed_names() == Seq::<Seq<char>>::empty(),
            r.decls() == Seq::<Option<Seq<char>>>::empty(),
    {
        TinyGo {
            src: Source::new(),
            opts: Opts { gofmt: false },
            names: Ns::new(),
            types: Vec::new(),
        }
    }

    /// Append the comment block of `docs` to the source buffer.
    pub fn docs(&mut self, docs: &Docs)
        ensures
            final(self).src_text() == old(self).src_text() + doc_text(*docs),
            final(self).claimed_names() == old(self).claimed_names(),
            final(self).decls() == old(self).decls(),
            final(self).wants_gofmt() == old(self).wants_gofmt(),
    {
        emit_docs(&mut self.src, docs);
    }

    /// Open the output unit with its `package` line.
    pub fn print_package(&mut self, iface: &Interface)
        ensures
            final(self).src_text() == old(self).src_text() + package_line(iface.name@),
            final(self).claimed_names() == old(self).claimed_names(),
            final(self).decls() == old(self).decls(),
            final(self).wants_gofmt() == old(self).wants_gofmt(),
    {
        self.src.go("package ");
        let n = to_snake(iface.name.as_str());
        self.src.go(n.as_str());
        self.src.go("\n\n");
        assert(final(self).src_text() =~= old(self).src_text() + package_line(iface.name@));
    }

    /// Append the Go name of `ty` to the source buffer; fails, changing
    /// nothing, exactly where the backend has no printable name for it.
    pub fn print_ty(&mut self, iface: &Interface, ty: &Type) -> (r: Result<(), Error>)
        requires
            iface.wf(),
            ty.wf(iface.types@.len(), iface.resources@.len()),
        ensures
            r is Ok <==> go_name(iface.types@, iface.resources@, *ty) is Some,
            r is Ok ==> final(self).src_text() == old(self).src_text() + go_name(
                iface.types@,
                iface.resources@,
                *ty,
            ).unwrap(),
            r is Ok ==> final(self).claimed_names() == old(self).claimed_names() && final(self).decls() == old(self).decls() && final(self).wants_gofmt() == old(self).wants_gofmt(),
            r is Err ==> r == Result::<(), Error>::Err(Error::Unsupported) && *final(self) == *old(self),
    {
        match type_name_x(&iface.types, &iface.resources, ty, iface.types.len()) {
            Ok(s) => {
                self.src.go(s.as_str());
                Ok(())
            },
            Err(e) => Err(e),
        }
    }

    /// Anonymous composite types are not supported by this backend yet.
    pub fn print_anonymous_type(&mut self, _iface: &Interface, _id: usize) -> (r: Result<
        (),
        Error,
    >)
        ensures
            r == Result::<(), Error>::Err(Error::Unsupported),
            *final(self) == *old(self),
    {
        Err(Error::Unsupported)
    }

    /// Whether `ty` resolves, through aliases, to a record with no fields.
    pub fn is_empty_type(&self, iface: &Interface, ty: &Type) -> (r: bool)
        requires
            iface.wf(),
            ty.wf(iface.types@.len(), iface.resources@.len()),
        ensures
            r == is_empty_type_s(iface.types@, *ty),
    {
        is_empty_x(&iface.types, &iface.resources, ty, iface.types.len())
    }

    /// Start one interface: print its package line and size the declaration
    /// cache for its type table.
    #[verifier::loop_isolation(false)]
    pub fn preprocess_one(&mut self, iface: &Interface, _dir: Direction)
        ensures
            final(self).src_text() == old(self).src_text() + package_line(iface.name@),
            final(self).claimed_names() == old(self).claimed_names(),
            final(self).decls() == Seq::new(iface.types@.len(), |i: int| Option::None::<Seq<char>>),
            final(self).wants_gofmt() == old(self).wants_gofmt(),
    {
        self.print_package(iface);
        let n = iface.types.len();
        let mut cache: Vec<Option<String>> = Vec::new();
        for i in 0..n
            invariant
                cache@.len() == i,
                forall|j: int| 0 <= j < i ==> cache@[j] is None,
        {
            cache.push(None);
        }
        self.types = cache;
        assert(final(self).decls() =~= Seq::new(
            iface.types@.len(),
            |i: int| Option::None::<Seq<char>>,
        ));
    }

    /// A named alias declaration is not supported by this backend yet.
    pub fn type_alias(
        &mut self,
        _iface: &Interface,
        _id: usize,
        _name: &str,
        _ty: &Type,
        _docs: &Docs,
    ) -> (r: Result<(), Error>)
        ensures
            r == Result::<(), Error>::Err(Error::Unsupported),
            *final(self) == *old(self),
    {
        Err(Error::Unsupported)
    }

    /// Cache the declaration of a named record: a Go struct with one line per
    /// field. Claims the record's CamelCase name; fails on a collision, or
    /// where a field's type cannot be printed, changing nothing.
    #[verifier::loop_isolation(false)]
    pub fn type_record(
        &mut self,
        iface: &Interface,
        id: usize,
        name: &str,
        record: &Record,
        docs: &Docs,
    ) -> (r: Result<(), Error>)
        requires
            iface.wf(),
            id < old(self).decls().len(),
            forall|i: int|
                0 <= i < record.fields@.len() ==> (#[trigger] record.fields@[i]).ty.wf(
                    iface.types@.len(),
                    iface.resources@.len(),
                ),
        ensures
            r is Ok <==> (!old(self).claimed(camel_of(name@)) && fields_ok(
                iface.types@,
                iface.resources@,
                record.fields@,
            )),
            r is Ok ==> final(self).claimed_names() == old(self).claimed_names().push(
                camel_of(name@),
            ) && final(self).decls() == old(self).decls().update(
                id as int,
                Option::Some(record_decl(iface.types@, iface.resources@, name@, *record, *docs)),
            ) && final(self).src_text() == old(self).src_text() && final(self).wants_gofmt() == old(self).wants_gofmt(),
            r == Result::<(), Error>::Err(Error::Collision) <==> old(self).claimed(camel_of(name@)),
            r == Result::<(), Error>::Err(Error::Unsupported) <==> (!old(self).claimed(
                camel_of(name@),
            ) && !fields_ok(iface.types@, iface.resources@, record.fields@)),
            r is Err ==> old(self).same_state(*final(self)),
    {
        let camel = to_camel(name);
        if self.names.contains(&camel) {
            return Err(Error::Collision);
        }
        let mut s = Source::new();
        emit_docs(&mut s, docs);
        s.go("type ");
        s.go(camel.as_str());
        s.go(" struct {\n");
        let ghost head = doc_text(*docs) + "type "@ + camel_of(name@) + " struct {\n"@;
        assert(s@ =~= head + fields_text(iface.types@, iface.resources@, record.fields@, 0));
        let nf = record.fields.len();
        for i in 0..nf
            invariant
                nf == record.fields@.len(),
                iface.wf(),
                forall|k: int|
                    0 <= k < record.fields@.len() ==> (#[trigger] record.fields@[k]).ty.wf(
                        iface.types@.len(),
                        iface.resources@.len(),
                    ),
                s@ == head + fields_text(iface.types@, iface.resources@, record.fields@, i as nat),
                forall|j: int|
                    0 <= j < i ==> go_name(
                        iface.types@,
                        iface.resources@,
                        (#[trigger] record.fields@[j]).ty,
                    ) is Some,
        {
            let ghost pre = s@;
            let f = &record.fields[i];
            s.go("\t");
            let fc = to_camel(f.name.as_str());
            s.go(fc.as_str());
            s.go(" ");
            match type_name_x(&iface.types, &iface.resources, &f.ty, iface.types.len()) {
                Ok(tn) => {
                    s.go(tn.as_str());
                },
                Err(e) => {
                    return Err(e);
                },
            }
            s.go("\n");
            assert(s@ =~= pre + field_line(iface.types@, iface.resources@, record.fields@[i as int]));
        }
        s.go("}\n\n");
        match self.names.insert(&camel) {
            Ok(_) => {},
            Err(e) => {
                return Err(e);
            },
        }
        let decl = s.take();
        assert(decl@ =~= record_decl(iface.types@, iface.resources@, name@, *record, *docs));
        self.types.set(id, Some(decl));
        assert(final(self).decls() =~= old(self).decls().update(
            id as int,
            Option::Some(record_decl(iface.types@, iface.resources@, name@, *record, *docs)),
        ));
        Ok(())
    }

    /// A named enum declaration is not supported by this backend yet.
    pub fn type_enum(
        &mut self,
        _iface: &Interface,
        _id: usize,
        _name: &str,
        _enum_: &crate::model::Enum,
        _docs: &Docs,
    ) -> (r: Result<(), Error>)
        ensures
            r == Result::<(), Error>::Err(Error::Unsupported),
            *final(self) == *old(self),
    {
        Err(Error::Unsupported)
    }

    /// A named expected declaration is not supported by this backend yet.
    pub fn type_expected(
        &mut self,
        _iface: &Interface,
        _id: usize,
        _name: &str,
        _expected: &crate::model::Expected,
        _docs: &Docs,
    ) -> (r: Result<(), Error>)
        ensures
            r == Result::<(), Error>::Err(Error::Unsupported),
            *final(self) == *old(self),
    {
        Err(Error::Unsupported)
    }

    /// Cache the declaration of a flags type: a sized integer type and one
    /// constant per flag in an iota block. Claims the type name and every
    /// constant name; fails on any collision, changing nothing.
    #[verifier::loop_isolation(false)]
    pub fn type_flags(
        &mut self,
        _iface: &Interface,
        id: usize,
        name: &str,
        flags: &Flags,
        docs: &Docs,
    ) -> (r: Result<(), Error>)
        requires
            id < old(self).decls().len(),
            1 <= flags.flags@.len() <= 64,
        ensures
            r is Ok <==> claim_all(
                old(self).claimed_names(),
                flags_names(name@, flags.flags@),
            ) is Some,
            r is Ok ==> Option::Some(final(self).claimed_names()) == claim_all(
                old(self).claimed_names(),
                flags_names(name@, flags.flags@),
            ) && final(self).decls() == old(self).decls().update(
                id as int,
                Option::Some(flags_decl(name@, *flags, *docs)),
            ) && final(self).src_text() == old(self).src_text() && final(self).wants_gofmt() == old(self).wants_gofmt(),
            r is Err ==> r == Result::<(), Error>::Err(Error::Collision) && old(self).same_state(
                *final(self),
            ),
    {
        let nf = flags.flags.len();
        let mut ins: Vec<String> = Vec::new();
        ins.push(String::from_str(name).concat("Type"));
        for i in 0..nf
            invariant
                nf == flags.flags@.len(),
                ins@.len() == i + 1,
                forall|j: int|
                    0 <= j <= i ==> #[trigger] ins@[j]@ == flags_names(name@, flags.flags@)[j],
        {
            ins.push(String::from_str(name).concat(to_camel(flags.flags[i].as_str()).as_str()));
        }
        assert(str_views(ins@) =~= flags_names(name@, flags.flags@));
        match self.names.insert_all(&ins) {
            Ok(_) => {},
            Err(e) => {
                return Err(e);
            },
        }
        let mut s = Source::new();
        emit_docs(&mut s, docs);
        s.go("type ");
        s.go(name);
        s.go("Type ");
        s.go(int_repr(flags_repr(flags)));
        s.go("\n\n");
        s.go("const (\n");
        let ghost head = doc_text(*docs) + "type "@ + name@ + "Type "@ + int_repr_s(
            flags_repr_s(flags.flags@.len()),
        ) + "\n\n"@ + "const (\n"@;
        assert(s@ =~= head + flag_lines(name@, flags.flags@, 0));
        for i in 0..nf
            invariant
                nf == flags.flags@.len(),
                ins@.len() == nf + 1,
                forall|j: int|
                    0 <= j <= nf ==> #[trigger] ins@[j]@ == flags_names(name@, flags.flags@)[j],
                s@ == head + flag_lines(name@, flags.flags@, i as nat),
        {
            let ghost pre = s@;
            s.go(ins[i + 1].as_str());
            if i == 0 {
                s.go(" ");
                s.go(name);
                s.go("Type = 1 << iota\n");
            } else {
                s.go("\n");
            }
            assert(s@ =~= pre + flag_line(name@, flags.flags@, i as int));
        }
        s.go(")\n\n");
        let decl = s.take();
        assert(decl@ =~= flags_decl(name@, *flags, *docs));
        self.types.set(id, Some(decl));
        assert(final(self).decls() =~= old(self).decls().update(
            id as int,
            Option::Some(flags_decl(name@, *flags, *docs)),
        ));
        Ok(())
    }

    /// A named union declaration is not supported by this backend yet.
    pub fn type_union(
        &mut self,
        _iface: &Interface,
        _id: usize,
        _name: &str,
        _union: &crate::model::Union,
        _docs: &Docs,
    ) -> (r: Result<(), Error>)
        ensures
            r == Result::<(), Error>::Err(Error::Unsupported),
            *final(self) == *old(self),
    {
        Err(Error::Unsupported)
    }

    /// A named option declaration is not supported by this backend yet.
    pub fn type_option(
        &mut self,
        _iface: &Interface,
        _id: usize,
        _name: &str,
        _payload: &Type,
        _docs: &Docs,
    ) -> (r: Result<(), Error>)
        ensures
            r == Result::<(), Error>::Err(Error::Unsupported),
            *final(self) == *old(self),
    {
        Err(Error::Unsupported)
    }

    /// A named tuple declaration is not supported by this backend yet.
    pub fn type_tuple(
        &mut self,
        _iface: &Interface,
        _id: usize,
        _name: &str,
        _tuple: &crate::model::Tuple,
        _docs: &Docs,
    ) -> (r: Result<(), Error>)
        ensures
            r == Result::<(), Error>::Err(Error::Unsupported),
            *final(self) == *old(self),
    {
        Err(Error::Unsupported)
    }

    /// A named variant declaration is not supported by this backend yet.
    pub fn type_variant(
        &mut self,
        _iface: &Interface,
        _id: usize,
        _name: &str,
        _variant: &crate::model::Variant,
        _docs: &Docs,
    ) -> (r: Result<(), Error>)
        ensures
            r == Result::<(), Error>::Err(Error::Unsupported),
            *final(self) == *old(self),
    {
        Err(Error::Unsupported)
    }

    /// Resources need no declaration of their own.
    pub fn type_resource(&mut self, _iface: &Interface, _ty: usize)
        ensures
            *final(self) == *old(self),
    {
    }

    /// Print the declaration of a named list type straight into the source
    /// buffer; a list of characters prints as a Go string.
    pub fn type_list(
        &mut self,
        iface: &Interface,
        _id: usize,
        name: &str,
        ty: &Type,
        docs: &Docs,
    ) -> (r: Result<(), Error>)
        requires
            iface.wf(),
            ty.wf(iface.types@.len(), iface.resources@.len()),
        ensures
            r is Ok <==> list_ok(iface.types@, iface.resources@, *ty),
            r is Ok ==> final(self).src_text() == old(self).src_text() + list_decl(
                iface.types@,
                iface.resources@,
                name@,
                *ty,
                *docs,
            ) && final(self).claimed_names() == old(self).claimed_names() && final(self).decls()
                == old(self).decls() && final(self).wants_gofmt() == old(self).wants_gofmt(),
            r is Err ==> r == Result::<(), Error>::Err(Error::Unsupported) && *final(self) == *old(self),
    {
        let mut s = Source::new();
        emit_docs(&mut s, docs);
        if *ty == Type::Char {
            s.go("type ");
            s.go(to_camel(name).as_str());
            s.go("string");
        } else {
            s.go("type ");
            s.go(to_camel(name).as_str());
            s.go(" []");
            match type_name_x(&iface.types, &iface.resources, ty, iface.types.len()) {
                Ok(tn) => {
                    s.go(tn.as_str());
                },
                Err(e) => {
                    return Err(e);
                },
            }
        }
        s.go("\n");
        assert(s@ =~= list_decl(iface.types@, iface.resources@, name@, *ty, *docs));
        self.src.go(s.as_str());
        Ok(())
    }

    /// Builtin types need no declaration.
    pub fn type_builtin(
        &mut self,
        _iface: &Interface,
        _id: usize,
        _name: &str,
        _ty: &Type,
        _docs: &Docs,
    )
        ensures
            *final(self) == *old(self),
    {
    }

    /// Note an imported function. Asynchronous functions are rejected
    /// outright; otherwise the returned line describes the import for the
    /// caller's log.
    pub fn import(&mut self, iface: &Interface, func: &Function) -> (r: Result<String, Error>)
        ensures
            r is Ok <==> !func.is_async,
            r matches Ok(s) ==> s@ == "(import) iface:"@ + iface.name@ + ", func:"@ + func.name@,
            r is Err ==> r == Result::<String, Error>::Err(Error::AsyncFunction),
            *final(self) == *old(self),
    {
        if func.is_async {
            return Err(Error::AsyncFunction);
        }
        let mut s = String::from_str("(import) iface:");
        s.append(iface.name.as_str());
        s.append(", func:");
        s.append(func.name.as_str());
        assert(s@ =~= "(import) iface:"@ + iface.name@ + ", func:"@ + func.name@);
        Ok(s)
    }

    /// Note an exported function: its `//export` comment goes into the source
    /// buffer. Asynchronous functions are rejected outright.
    pub fn export(&mut self, _iface: &Interface, func: &Function) -> (r: Result<(), Error>)
        ensures
            r is Ok <==> !func.is_async,
            r is Ok ==> final(self).src_text() == old(self).src_text() + "//export "@ + func.name@
                + "\n"@ && final(self).claimed_names() == old(self).claimed_names() && final(self).decls() == old(self).decls() && final(self).wants_gofmt() == old(self).wants_gofmt(),
            r is Err ==> r == Result::<(), Error>::Err(Error::AsyncFunction) && *final(self)
                == *old(self),
    {
        if func.is_async {
            return Err(Error::AsyncFunction);
        }
        self.src.go("//export ");
        self.src.go(func.name.as_str());
        self.src.go("\n");
        assert(final(self).src_text() =~= old(self).src_text() + "//export "@ + func.name@
            + "\n"@);
        Ok(())
    }
}


/// The concatenation of the cached declarations of the first `n` entries of
/// the order `o`; entries without a cached declaration contribute nothing.
pub open spec fn cat_decls(decls: Seq<Option<Seq<char>>>, o: Seq<usize>, n: nat) -> Seq<char>
    decreases n,
{
    if n == 0 {
        Seq::empty()
    } else {
        cat_decls(decls, o, (n - 1) as nat) + (match decls[o[n - 1] as int] {
            Option::Some(d) => d,
            Option::None => Seq::empty(),
        })
    }
}

/// The output-unit name an interface emits into.
pub open spec fn unit_name(n: Seq<char>) -> Seq<char> {
    snake_of(n) + "/"@ + snake_of(n) + ".go"@
}

impl TinyGo {
    /// Close out one interface: take the accumulated source, append every
    /// cached declaration in a dependency-first order, and push the result as
    /// one named output unit. Fails, changing nothing, exactly when the type
    /// graph is cyclic.
    #[verifier::loop_isolation(false)]
    pub fn finish_one(&mut self, iface: &Interface, files: &mut Files) -> (r: Result<(), Error>)
        requires
            iface.wf(),
            old(self).decls().len() == iface.types@.len(),
        ensures
            r is Ok <==> acyclic(iface.types@),
            r is Ok ==> exists|o: Seq<usize>|
                valid_order(iface.types@, o) && final(files)@ == old(files)@.push(
                    (
                        unit_name(iface.name@),
                        old(self).src_text() + cat_decls(old(self).decls(), o, o.len()),
                    ),
                ),
            r is Ok ==> final(self).src_text() == Seq::<char>::empty() && final(self).claimed_names() == old(self).claimed_names() && final(self).decls() == old(self).decls() && final(self).wants_gofmt() == old(self).wants_gofmt(),
            r is Err ==> r == Result::<(), Error>::Err(Error::CyclicTypes) && !acyclic(
                iface.types@,
            ) && *final(self) == *old(self) && final(files)@ == old(files)@,
    {
        let order = match topological_types(iface) {
            Ok(o) => o,
            Err(e) => {
                return Err(e);
            },
        };
        let mut out = self.src.take();
        let nk = order.len();
        for k in 0..nk
            invariant
                nk == order@.len(),
                out@ == old(self).src_text() + cat_decls(old(self).decls(), order@, k as nat),
        {
            let ghost pre = out@;
            let id = order[k];
            match &self.types[id] {
                Option::Some(t) => {
                    out.append(t.as_str());
                },
                Option::None => {},
            }
            assert(out@ =~= old(self).src_text() + cat_decls(
                old(self).decls(),
                order@,
                (k + 1) as nat,
            ));
        }
        let n1 = to_snake(iface.name.as_str());
        let mut path = n1.clone();
        path.append("/");
        path.append(n1.as_str());
        path.append(".go");
        assert(path@ =~= unit_name(iface.name@));
        files.push(path, out);
        proof {
            assert(valid_order(iface.types@, order@) && final(files)@ == old(files)@.push(
                (
                    unit_name(iface.name@),
                    old(self).src_text() + cat_decls(old(self).decls(), order@, order@.len()),
                ),
            ));
        }
        Ok(())
    }
}

/// The Go spelling of an integer representation.
pub fn int_repr(ty: Int) -> (r: &'static str)
    ensures
        r@ == int_repr_s(ty),
{
    match ty {
        Int::U8 => "uint8",
        Int::U16 => "uint16",
        Int::U32 => "uint32",
        Int::U64 => "uint64",
    }
}

/// The integer representation a flags type is stored in.
pub fn flags_repr(f: &Flags) -> (r: Int)
    requires
        1 <= f.flags@.len() <= 64,
    ensures
        r == flags_repr_s(f.flags@.len()),
{
    let n = f.flags.len();
    if n <= 8 {
        Int::U8
    } else if n <= 16 {
        Int::U16
    } else if n <= 32 {
        Int::U32
    } else {
        Int::U64
    }
}

} // verus!
