//! Classification of imported interface functions whose canonical ABI
//! signature declares no result.
//!
//! The interface description is held as plain values: a table of type
//! definitions and, for each imported interface, its key and functions.

use vstd::prelude::*;
use crate::abi::ImportKey;
use crate::text::append_bytes;

verus! {

/// A value type as a function signature names it.
#[derive(Clone, Copy, Debug, PartialEq, Eq, Structural)]
pub enum WitType {
    /// `string`.
    String,
    /// A defined type: an index into the type table.
    Id(usize),
    /// Any other primitive type.
    Other,
}

/// What a defined type is.
#[derive(Clone, Copy, Debug, PartialEq, Eq, Structural)]
pub enum TypeDefKind {
    List,
    Record,
    Tuple,
    Variant,
    Option,
    Result,
    /// Another name for a type.
    Alias(WitType),
    /// Any other definition (flags, enums, resources, handles, ...).
    Other,
}

/// An interface function: its name and its result type, if any.
pub struct WitFunction {
    pub name: Vec<u8>,
    pub result: Option<WitType>,
}

/// How a world names one of its imported interfaces.
pub enum InterfaceKey {
    /// A plain name.
    Name(Vec<u8>),
    /// An interface: its package's namespace and name, if it belongs to a
    /// package, and its own name, if it has one.
    Interface { package: Option<(Vec<u8>, Vec<u8>)>, name: Option<Vec<u8>> },
}

/// An imported interface of a world.
pub struct ImportedInterface {
    pub key: InterfaceKey,
    pub functions: Vec<WitFunction>,
}

/// Whether a return of type `ty` goes through an out-pointer, following at
/// most `fuel` aliases.
pub open spec fn retptr_fuel(types: Seq<TypeDefKind>, ty: WitType, fuel: nat) -> bool
    decreases fuel,
{
    match ty {
        WitType::String => true,
        WitType::Id(i) => if i < types.len() {
            match types[i as int] {
                TypeDefKind::Alias(inner) => fuel > 0 && retptr_fuel(types, inner, (fuel - 1) as nat),
                TypeDefKind::Other => false,
                _ => true,
            }
        } else {
            false
        },
        WitType::Other => false,
    }
}

/// A return of type `ty` goes through an out-pointer: it is a string, a
/// list, record, tuple, variant, option or result, through any aliases (as
/// many as the table has types, which an alias chain without cycles never
/// exceeds).
pub open spec fn returns_by_pointer(types: Seq<TypeDefKind>, ty: WitType) -> bool {
    retptr_fuel(types, ty, types.len())
}

/// Whether a return of type `ty` goes through an out-pointer.
pub fn uses_retptr(types: &Vec<TypeDefKind>, ty: &WitType) -> (r: bool)
    ensures
        r == returns_by_pointer(types@, *ty),
{
    let mut cur: WitType = *ty;
    let mut fuel: usize = types.len();
    loop
        invariant
            fuel <= types.len(),
            returns_by_pointer(types@, *ty) == retptr_fuel(types@, cur, fuel as nat),
        decreases fuel,
    {
        match cur {
            WitType::String => return true,
            WitType::Other => return false,
            WitType::Id(i) => {
                if i >= types.len() {
                    return false;
                }
                match types[i] {
                    TypeDefKind::Alias(inner) => {
                        if fuel == 0 {
                            return false;
                        }
                        cur = inner;
                        fuel = fuel - 1;
                    },
                    TypeDefKind::Other => return false,
                    _ => return true,
                }
            },
        }
    }
}

/// A function whose import must declare no result: it returns through an
/// out-pointer, or returns nothing.
pub open spec fn needs_no_result(types: Seq<TypeDefKind>, f: WitFunction) -> bool {
    match f.result {
        Some(t) => returns_by_pointer(types, t),
        None => true,
    }
}

/// The name under which an interface's functions are imported.
pub open spec fn interface_name(key: InterfaceKey) -> Seq<u8> {
    match key {
        InterfaceKey::Name(n) => n@,
        InterfaceKey::Interface { package, name } => {
            let own = match name {
                Some(n) => n@,
                None => Seq::empty(),
            };
            match package {
                Some((ns, pn)) => ns@ + seq![58u8] + pn@ + seq![47u8] + own,
                None => own,
            }
        },
    }
}

/// Writes the name under which an interface's functions are imported:
/// `namespace:package/name` for an interface of a package.
pub fn interface_name_of(key: &InterfaceKey) -> (r: Vec<u8>)
    ensures
        r@ == interface_name(*key),
{
    match key {
        InterfaceKey::Name(n) => {
            let mut out: Vec<u8> = Vec::new();
            append_bytes(&mut out, n.as_slice());
            assert(out@ =~= n@);
            out
        },
        InterfaceKey::Interface { package, name } => {
            let mut out: Vec<u8> = Vec::new();
            match package {
                Some((ns, pn)) => {
                    append_bytes(&mut out, ns.as_slice());
                    out.push(58);
                    append_bytes(&mut out, pn.as_slice());
                    out.push(47);
                },
                None => {},
            }
            match name {
                Some(n) => append_bytes(&mut out, n.as_slice()),
                None => {},
            }
            assert(out@ =~= interface_name(*key));
            out
        },
    }
}

/// The keys of the functions of one interface that need no result.
pub open spec fn function_keys(types: Seq<TypeDefKind>, iface: Seq<u8>, fns: Seq<WitFunction>) -> Seq<
    (Seq<u8>, Seq<u8>),
>
    decreases fns.len(),
{
    if fns.len() == 0 {
        Seq::empty()
    } else {
        let prev = function_keys(types, iface, fns.drop_last());
        if needs_no_result(types, fns.last()) {
            prev.push((iface, fns.last().name@))
        } else {
            prev
        }
    }
}

/// The keys of all imported functions that need no result, interface by
/// interface.
pub open spec fn import_keys(types: Seq<TypeDefKind>, imports: Seq<ImportedInterface>) -> Seq<
    (Seq<u8>, Seq<u8>),
>
    decreases imports.len(),
{
    if imports.len() == 0 {
        Seq::empty()
    } else {
        import_keys(types, imports.drop_last()) + function_keys(
            types,
            interface_name(imports.last().key),
            imports.last().functions@,
        )
    }
}

/// The views of a list of keys.
pub open spec fn key_views(keys: Seq<ImportKey>) -> Seq<(Seq<u8>, Seq<u8>)> {
    keys.map_values(|k: ImportKey| (k.interface@, k.function@))
}

/// Lists every imported function whose import must declare no result,
/// keyed by its interface's import name and its own name.
pub fn collect_retptr_imports(types: &Vec<TypeDefKind>, imports: &Vec<ImportedInterface>) -> (r: Vec<
    ImportKey,
>)
    ensures
        key_views(r@) == import_keys(types@, imports@),
{
    let mut out: Vec<ImportKey> = Vec::new();
    let mut i: usize = 0;
    while i < imports.len()
        invariant
            i <= imports.len(),
            key_views(out@) == import_keys(types@, imports@.take(i as int)),
        decreases imports.len() - i,
    {
        assert(imports@.take(i + 1).drop_last() =~= imports@.take(i as int));
        let iface = interface_name_of(&imports[i].key);
        let fns = &imports[i].functions;
        let ghost base = key_views(out@);
        let mut j: usize = 0;
        assert(fns@.take(0) =~= Seq::<WitFunction>::empty());
        assert(base + function_keys(types@, iface@, fns@.take(0)) =~= base);
        while j < fns.len()
            invariant
                j <= fns.len(),
                key_views(out@) == base + function_keys(types@, iface@, fns@.take(j as int)),
            decreases fns.len() - j,
        {
            assert(fns@.take(j + 1).drop_last() =~= fns@.take(j as int));
            let f = &fns[j];
            let needed = match &f.result {
                Some(t) => uses_retptr(types, t),
                None => true,
            };
            if needed {
                let ghost before = out@;
                let name = copy_name(&f.name);
                let ifc = copy_name(&iface);
                out.push(ImportKey { interface: ifc, function: name });
                assert(key_views(out@) =~= key_views(before).push((iface@, f.name@)));
            }
            j = j + 1;
        }
        assert(fns@.take(j as int) =~= fns@);
        i = i + 1;
    }
    assert(imports@.take(i as int) =~= imports@);
    out
}

fn copy_name(v: &Vec<u8>) -> (r: Vec<u8>)
    ensures
        r@ == v@,
{
    let mut out: Vec<u8> = Vec::new();
    append_bytes(&mut out, v.as_slice());
    assert(out@ =~= v@);
    out
}

} // verus!
