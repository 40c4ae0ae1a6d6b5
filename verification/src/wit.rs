//! Listing what a component imports, with readable WIT types.
use vstd::prelude::*;
use wit_parser::decoding::{DecodedWasm, decode};
use std::rc::Rc;
use wit_parser::{Resolve, Type, TypeDefKind, World, WorldItem};

verus! {

/// A WIT type as a component's type information gives it.
pub enum WitType {
    Bool,
    U8,
    U16,
    U32,
    U64,
    S8,
    S16,
    S32,
    S64,
    F32,
    F64,
    Char,
    String,
    ErrorContext,
    /// The defined type at this position of the world's type table.
    Id(usize),
}

/// A defined type: its name, if it has one, and its structure.
pub struct WitTypeDef {
    pub name: Option<String>,
    pub kind: WitTypeDefKind,
}

/// The structure of a defined type.
pub enum WitTypeDefKind {
    List(WitType),
    Option(WitType),
    Tuple(Vec<WitType>),
    /// Any other structure, held as its debug text.
    Other(String),
}

/// A function of an imported interface.
pub struct WitFunction {
    pub name: String,
    pub params: Vec<(String, WitType)>,
    pub result: Option<WitType>,
}

/// One import of a component's world, under its name.
pub enum WitImport {
    Interface { name: String, functions: Vec<WitFunction> },
    /// A function imported directly, with the debug text of its parameters.
    Function { name: String, params_debug: String },
    Type { name: String },
}

/// What a component imports: its type table and its imports, in order.
pub struct WitWorld {
    pub types: Vec<WitTypeDef>,
    pub imports: Vec<WitImport>,
}

#[verifier::external_type_specification]
#[verifier::external_body]
pub struct ExResolve(Resolve);

#[verifier::external_type_specification]
#[verifier::external_body]
pub struct ExWorld(World);

#[verifier::external_type_specification]
#[verifier::external_body]
pub struct ExType(Type);

// ---------------------------------------------------------------- the world as text values

/// The structure of a defined type, its texts as sequences of characters.
pub enum KindV {
    List(WitType),
    Option(WitType),
    Tuple(Seq<WitType>),
    Other(Seq<char>),
}

pub struct DefV {
    pub name: Option<Seq<char>>,
    pub kind: KindV,
}

pub struct FunctionV {
    pub name: Seq<char>,
    pub params: Seq<(Seq<char>, WitType)>,
    pub result: Option<WitType>,
}

pub enum ImportV {
    Interface { name: Seq<char>, functions: Seq<FunctionV> },
    Function { name: Seq<char>, params_debug: Seq<char> },
    Type { name: Seq<char> },
}

/// A world as values: its type table and its imports.
pub struct WorldV {
    pub types: Seq<DefV>,
    pub imports: Seq<ImportV>,
}

pub open spec fn opt_text(o: Option<String>) -> Option<Seq<char>> {
    match o {
        Some(s) => Some(s@),
        None => None,
    }
}

pub open spec fn kind_view(k: WitTypeDefKind) -> KindV {
    match k {
        WitTypeDefKind::List(t) => KindV::List(t),
        WitTypeDefKind::Option(t) => KindV::Option(t),
        WitTypeDefKind::Tuple(items) => KindV::Tuple(items@),
        WitTypeDefKind::Other(d) => KindV::Other(d@),
    }
}

pub open spec fn def_view(d: WitTypeDef) -> DefV {
    DefV { name: opt_text(d.name), kind: kind_view(d.kind) }
}

pub open spec fn defs_view(ds: Seq<WitTypeDef>) -> Seq<DefV> {
    ds.map_values(|d: WitTypeDef| def_view(d))
}

pub open spec fn param_view(p: (String, WitType)) -> (Seq<char>, WitType) {
    (p.0@, p.1)
}

pub open spec fn params_view(ps: Seq<(String, WitType)>) -> Seq<(Seq<char>, WitType)> {
    ps.map_values(|p: (String, WitType)| param_view(p))
}

pub open spec fn function_view(f: WitFunction) -> FunctionV {
    FunctionV { name: f.name@, params: params_view(f.params@), result: f.result }
}

pub open spec fn functions_view(fs: Seq<WitFunction>) -> Seq<FunctionV> {
    fs.map_values(|f: WitFunction| function_view(f))
}

pub open spec fn import_view(i: WitImport) -> ImportV {
    match i {
        WitImport::Interface { name, functions } => ImportV::Interface {
            name: name@,
            functions: functions_view(functions@),
        },
        WitImport::Function { name, params_debug } => ImportV::Function {
            name: name@,
            params_debug: params_debug@,
        },
        WitImport::Type { name } => ImportV::Type { name: name@ },
    }
}

pub open spec fn imports_view(is: Seq<WitImport>) -> Seq<ImportV> {
    is.map_values(|i: WitImport| import_view(i))
}

pub open spec fn world_view(w: WitWorld) -> WorldV {
    WorldV { types: defs_view(w.types@), imports: imports_view(w.imports@) }
}


// ---------------------------------------------------------------- decoding

/// What decoding a wasm binary gives, as values.
pub enum DecodedV {
    /// A component, with the world it imports: position `i` of its type table
    /// is the type whose `TypeId` has index `i`, each import is named by
    /// `Resolve::name_world_key`, and an interface's functions come in its order.
    Component(WorldV),
    /// Binary-encoded WIT packages rather than a component.
    Package,
    /// Not decodable; the decoder's error with its causes, joined by `: `.
    Invalid(Seq<char>),
}

/// What `wit_parser::decoding::decode` makes of `bytes`, as values.
pub uninterp spec fn decoded(bytes: Seq<u8>) -> DecodedV;

/// The world of the component that `bytes` decode to.
pub open spec fn component_world(bytes: Seq<u8>) -> WorldV {
    decoded(bytes)->Component_0
}

/// A decoded component: its type information, the world it imports, and the
/// bytes it was decoded from.
pub struct WitComponent {
    resolve: Resolve,
    world: World,
    bytes: Rc<Vec<u8>>,
}

/// Why a wasm binary gives no component.
pub enum DecodeFailure {
    NotComponent,
    Invalid(String),
}

/// The structure of a defined type without its types.
pub enum KindHead {
    List,
    Option,
    Tuple(usize),
    Other(String),
}

/// One import of a world, before its functions are read.
pub enum ImportHead {
    Interface { name: String, functions: usize },
    Function { name: String, params_debug: String },
    Type { name: String },
}

/// Where a type stands in a world: the inner type of defined type `i`, item
/// `k` of tuple `i`, parameter `k` or the result of function `j` of import `i`.
#[derive(Clone, Copy)]
pub enum TypePath {
    DefInner(usize),
    DefItem(usize, usize),
    Param(usize, usize, usize),
    Result(usize, usize),
}

/// A type as the decoder gives it, with where it stands.
pub struct TypeHandle {
    ty: Type,
    path: TypePath,
    bytes: Rc<Vec<u8>>,
}

pub open spec fn kind_head_of(h: KindHead, k: KindV) -> bool {
    match h {
        KindHead::List => k is List,
        KindHead::Option => k is Option,
        KindHead::Tuple(n) => k matches KindV::Tuple(items) && items.len() == n,
        KindHead::Other(s) => k matches KindV::Other(d) && s@ == d,
    }
}

pub open spec fn import_head_of(h: ImportHead, imp: ImportV) -> bool {
    match h {
        ImportHead::Interface { name, functions } => imp matches ImportV::Interface { name: n, functions: fs }
            && name@ == n && functions == fs.len(),
        ImportHead::Function { name, params_debug } => imp matches ImportV::Function { name: n, params_debug: d }
            && name@ == n && params_debug@ == d,
        ImportHead::Type { name } => imp matches ImportV::Type { name: n } && name@ == n,
    }
}

/// Function `j` of import `i`, if import `i` is an interface with that many functions.
pub open spec fn function_v(w: WorldV, i: int, j: int) -> Option<FunctionV> {
    if 0 <= i < w.imports.len() {
        match w.imports[i] {
            ImportV::Interface { functions, .. } => if 0 <= j < functions.len() {
                Some(functions[j])
            } else {
                None
            },
            _ => None,
        }
    } else {
        None
    }
}

/// `h` gives the name, the number of parameters and whether there is a result of `f`.
pub open spec fn function_head_of(h: (String, usize, bool), f: FunctionV) -> bool {
    h.0@ == f.name && h.1 == f.params.len() && h.2 == f.result is Some
}

/// The name of parameter `k` of function `j` of import `i`, if there is one.
pub open spec fn param_name_at(w: WorldV, i: int, j: int, k: int) -> Option<Seq<char>> {
    match function_v(w, i, j) {
        Some(f) => if 0 <= k < f.params.len() {
            Some(f.params[k].0)
        } else {
            None
        },
        None => None,
    }
}

/// `p` points inside a defined type of `w`, at a type.
pub open spec fn has_def_type(w: WorldV, p: TypePath) -> bool {
    (p is DefInner || p is DefItem) && type_at_path(w, p) is Some
}

/// `p` points inside a function of an interface that `w` imports, at a type.
pub open spec fn has_function_type(w: WorldV, p: TypePath) -> bool {
    (p is Param || p is Result) && type_at_path(w, p) is Some
}

/// The type standing at `p` in the world, if any.
pub open spec fn type_at_path(w: WorldV, p: TypePath) -> Option<WitType> {
    match p {
        TypePath::DefInner(i) => if i < w.types.len() {
            match w.types[i as int].kind {
                KindV::List(t) => Some(t),
                KindV::Option(t) => Some(t),
                _ => None,
            }
        } else {
            None
        },
        TypePath::DefItem(i, k) => if i < w.types.len() {
            match w.types[i as int].kind {
                KindV::Tuple(items) => if k < items.len() {
                    Some(items[k as int])
                } else {
                    None
                },
                _ => None,
            }
        } else {
            None
        },
        TypePath::Param(i, j, k) => match function_v(w, i as int, j as int) {
            Some(f) => if k < f.params.len() {
                Some(f.params[k as int].1)
            } else {
                None
            },
            None => None,
        },
        TypePath::Result(i, j) => match function_v(w, i as int, j as int) {
            Some(f) => f.result,
            None => None,
        },
    }
}

/// Calls `wit_parser::decoding::decode` on `bytes`, a function of the bytes
/// alone, and keeps a component with its world and the bytes; WIT packages are
/// refused and an error is turned into its message with its causes. `decoded` names the
/// result as values. As wit-parser documents, the component's types are
/// topologically sorted and every reference is resolved, so its world is well formed.
#[verifier::external_body]
fn decode_component(bytes: &[u8]) -> (r: Result<WitComponent, DecodeFailure>)
    ensures
        match decoded(bytes@) {
            DecodedV::Component(_) => r matches Ok(c) && c.bytes@ == bytes@,
            DecodedV::Package => r matches Err(DecodeFailure::NotComponent),
            DecodedV::Invalid(m) => r matches Err(DecodeFailure::Invalid(s)) && s@ == m,
        },
        r matches Ok(c) ==> world_wf(component_world(c.bytes@)),
{
    match decode(bytes) {
        Ok(DecodedWasm::Component(resolve, id)) => {
            let world = resolve.worlds[id].clone();
            Ok(WitComponent { resolve, world, bytes: Rc::new(bytes.to_vec()) })
        },
        Ok(DecodedWasm::WitPackage(..)) => Err(DecodeFailure::NotComponent),
        Err(e) => Err(DecodeFailure::Invalid(format!("{:#}", e))),
    }
}

/// The number of the component's defined types (`Arena::len`).
#[verifier::external_body]
fn type_count(c: &WitComponent) -> (r: usize)
    ensures
        r == component_world(c.bytes@).types.len(),
{
    c.resolve.types.len()
}

/// Defined type `i` (the arena's `i`-th): its name and its structure, any
/// structure other than a list, an option or a tuple as its debug text.
#[verifier::external_body]
fn type_head(c: &WitComponent, i: usize) -> (r: Option<(Option<String>, KindHead)>)
    ensures
        r is Some <==> i < component_world(c.bytes@).types.len(),
        r matches Some(h) ==> opt_text(h.0) == component_world(c.bytes@).types[i as int].name,
        r matches Some(h) ==> kind_head_of(h.1, component_world(c.bytes@).types[i as int].kind),
{
    let (_, d) = c.resolve.types.iter().nth(i)?;
    let head = match &d.kind {
        TypeDefKind::List(_) => KindHead::List,
        TypeDefKind::Option(_) => KindHead::Option,
        TypeDefKind::Tuple(t) => KindHead::Tuple(t.types.len()),
        other => KindHead::Other(format!("{:?}", other)),
    };
    Some((d.name.clone(), head))
}

/// The type at `p` inside a defined type (`DefInner` or `DefItem`).
#[verifier::external_body]
fn def_type(c: &WitComponent, p: TypePath) -> (r: Option<TypeHandle>)
    ensures
        r is Some <==> has_def_type(component_world(c.bytes@), p),
        r matches Some(h) ==> h.path == p,
        r matches Some(h) ==> h.bytes@ == c.bytes@,
{
    let (i, k) = match p {
        TypePath::DefInner(i) => (i, None),
        TypePath::DefItem(i, k) => (i, Some(k)),
        _ => return None,
    };
    let (_, d) = c.resolve.types.iter().nth(i)?;
    let ty = match (&d.kind, k) {
        (TypeDefKind::List(t) | TypeDefKind::Option(t), None) => *t,
        (TypeDefKind::Tuple(t), Some(k)) => *t.types.get(k)?,
        _ => return None,
    };
    Some(TypeHandle { ty, path: p, bytes: c.bytes.clone() })
}

/// The type at `p` in a function of an imported interface (`Param` or `Result`).
#[verifier::external_body]
fn fn_type(c: &WitComponent, p: TypePath) -> (r: Option<TypeHandle>)
    ensures
        r is Some <==> has_function_type(component_world(c.bytes@), p),
        r matches Some(h) ==> h.path == p,
        r matches Some(h) ==> h.bytes@ == c.bytes@,
{
    let (i, j, k) = match p {
        TypePath::Param(i, j, k) => (i, j, Some(k)),
        TypePath::Result(i, j) => (i, j, None),
        _ => return None,
    };
    let id = match c.world.imports.get_index(i)? {
        (_, WorldItem::Interface { id, .. }) => *id,
        _ => return None,
    };
    let (_, f) = c.resolve.interfaces[id].functions.get_index(j)?;
    let ty = match k {
        Some(k) => f.params.get(k)?.ty,
        None => f.result?,
    };
    Some(TypeHandle { ty, path: p, bytes: c.bytes.clone() })
}

/// A `wit_parser::Type` as the library's `WitType`, variant for variant; a
/// defined type by the index of its `TypeId`.
#[verifier::external_body]
fn plain_type(h: &TypeHandle) -> (r: WitType)
    ensures
        type_at_path(component_world(h.bytes@), h.path) matches Some(t) ==> r == t,
{
    match h.ty {
        Type::Bool => WitType::Bool, Type::U8 => WitType::U8, Type::U16 => WitType::U16,
        Type::U32 => WitType::U32, Type::U64 => WitType::U64, Type::S8 => WitType::S8,
        Type::S16 => WitType::S16, Type::S32 => WitType::S32, Type::S64 => WitType::S64,
        Type::F32 => WitType::F32, Type::F64 => WitType::F64, Type::Char => WitType::Char,
        Type::String => WitType::String, Type::ErrorContext => WitType::ErrorContext,
        Type::Id(id) => WitType::Id(id.index()),
    }
}

/// The number of the world's imports (`IndexMap::len`).
#[verifier::external_body]
fn import_count(c: &WitComponent) -> (r: usize)
    ensures
        r == component_world(c.bytes@).imports.len(),
{
    c.world.imports.len()
}

/// Import `i` of the world (`IndexMap::get_index`), named by
/// `Resolve::name_world_key`; a directly imported function's parameters as
/// their debug text.
#[verifier::external_body]
fn import_head(c: &WitComponent, i: usize) -> (r: Option<ImportHead>)
    ensures
        r is Some <==> i < component_world(c.bytes@).imports.len(),
        r matches Some(h) ==> import_head_of(h, component_world(c.bytes@).imports[i as int]),
{
    let (key, item) = c.world.imports.get_index(i)?;
    let name = c.resolve.name_world_key(key);
    Some(match item {
        WorldItem::Interface { id, .. } => {
            ImportHead::Interface { name, functions: c.resolve.interfaces[*id].functions.len() }
        },
        WorldItem::Function(f) => ImportHead::Function { name, params_debug: format!("{:?}", f.params) },
        WorldItem::Type { .. } => ImportHead::Type { name },
    })
}

/// Function `j` of import `i` (`IndexMap::get_index`): its name, how many
/// parameters it has, and whether it has a result.
#[verifier::external_body]
fn function_head(c: &WitComponent, i: usize, j: usize) -> (r: Option<(String, usize, bool)>)
    ensures
        r is Some <==> function_v(component_world(c.bytes@), i as int, j as int) is Some,
        r matches Some(h) ==> function_head_of(h, function_v(component_world(c.bytes@), i as int, j as int)->0),
{
    let id = match c.world.imports.get_index(i)? {
        (_, WorldItem::Interface { id, .. }) => *id,
        _ => return None,
    };
    let (name, f) = c.resolve.interfaces[id].functions.get_index(j)?;
    Some((name.clone(), f.params.len(), f.result.is_some()))
}

/// The name of parameter `k` of function `j` of import `i`.
#[verifier::external_body]
fn param_name(c: &WitComponent, i: usize, j: usize, k: usize) -> (r: Option<String>)
    ensures
        opt_text(r) == param_name_at(component_world(c.bytes@), i as int, j as int, k as int),
{
    let id = match c.world.imports.get_index(i)? {
        (_, WorldItem::Interface { id, .. }) => *id,
        _ => return None,
    };
    let (_, f) = c.resolve.interfaces[id].functions.get_index(j)?;
    Some(f.params.get(k)?.name.clone())
}

// ---------------------------------------------------------------- reading the world

/// The type at `p` inside a defined type of the component.
fn read_def_type(c: &WitComponent, p: TypePath) -> (r: WitType)
    requires
        has_def_type(component_world(c.bytes@), p),
    ensures
        type_at_path(component_world(c.bytes@), p) == Some(r),
{
    match def_type(c, p) {
        Some(h) => plain_type(&h),
        None => vstd::pervasive::unreached(),
    }
}

/// The type at `p` in a function of an interface the component imports.
fn read_function_type(c: &WitComponent, p: TypePath) -> (r: WitType)
    requires
        has_function_type(component_world(c.bytes@), p),
    ensures
        type_at_path(component_world(c.bytes@), p) == Some(r),
{
    match fn_type(c, p) {
        Some(h) => plain_type(&h),
        None => vstd::pervasive::unreached(),
    }
}

/// The structure of defined type `i`, whose head is `head`.
fn read_kind(c: &WitComponent, i: usize, head: KindHead) -> (r: WitTypeDefKind)
    requires
        i < component_world(c.bytes@).types.len(),
        kind_head_of(head, component_world(c.bytes@).types[i as int].kind),
    ensures
        kind_view(r) == component_world(c.bytes@).types[i as int].kind,
{
    let ghost k = component_world(c.bytes@).types[i as int].kind;
    match head {
        KindHead::List => WitTypeDefKind::List(read_def_type(c, TypePath::DefInner(i))),
        KindHead::Option => WitTypeDefKind::Option(read_def_type(c, TypePath::DefInner(i))),
        KindHead::Tuple(n) => {
            let ghost all = k->Tuple_0;
            let mut items: Vec<WitType> = Vec::new();
            let mut j: usize = 0;
            while j < n
                invariant
                    i < component_world(c.bytes@).types.len(),
                    k == component_world(c.bytes@).types[i as int].kind,
                    k == KindV::Tuple(all),
                    all.len() == n,
                    j <= n,
                    items@ == all.take(j as int),
                decreases n - j,
            {
                let t = read_def_type(c, TypePath::DefItem(i, j));
                items.push(t);
                assert(items@ =~= all.take(j + 1));
                j = j + 1;
            }
            assert(all.take(n as int) =~= all);
            WitTypeDefKind::Tuple(items)
        },
        KindHead::Other(d) => WitTypeDefKind::Other(d),
    }
}

/// Function `j` of import `i`, an interface with at least `j + 1` functions.
fn read_function(c: &WitComponent, i: usize, j: usize) -> (r: WitFunction)
    requires
        function_v(component_world(c.bytes@), i as int, j as int) is Some,
    ensures
        function_view(r) == function_v(component_world(c.bytes@), i as int, j as int)->0,
{
    let ghost f = function_v(component_world(c.bytes@), i as int, j as int)->0;
    let (name, count, has_result) = match function_head(c, i, j) {
        Some(h) => h,
        None => vstd::pervasive::unreached(),
    };
    let mut params: Vec<(String, WitType)> = Vec::new();
    let mut k: usize = 0;
    while k < count
        invariant
            function_v(component_world(c.bytes@), i as int, j as int) == Some(f),
            count == f.params.len(),
            k <= count,
            params_view(params@) == f.params.take(k as int),
        decreases count - k,
    {
        let pname = match param_name(c, i, j, k) {
            Some(s) => s,
            None => vstd::pervasive::unreached(),
        };
        let pty = read_function_type(c, TypePath::Param(i, j, k));
        let ghost before = params@;
        params.push((pname, pty));
        assert(params@ == before.push((pname, pty)));
        assert(type_at_path(component_world(c.bytes@), TypePath::Param(i, j, k)) == Some(f.params[k as int].1));
        assert(param_view((pname, pty)) == f.params[k as int]);
        assert(params_view(params@) =~= params_view(before).push(param_view((pname, pty))));
        assert(f.params.take(k + 1) =~= f.params.take(k as int).push(f.params[k as int]));
        k = k + 1;
    }
    assert(f.params.take(count as int) =~= f.params);
    let result = if has_result {
        Some(read_function_type(c, TypePath::Result(i, j)))
    } else {
        None
    };
    WitFunction { name, params, result }
}

/// The world of the component, read into the library's own types.
fn read_world(c: &WitComponent) -> (r: WitWorld)
    ensures
        world_view(r) == component_world(c.bytes@),
{
    let ghost cw = component_world(c.bytes@);
    let count = type_count(c);
    let mut types: Vec<WitTypeDef> = Vec::new();
    let mut i: usize = 0;
    while i < count
        invariant
            cw == component_world(c.bytes@),
            count == cw.types.len(),
            i <= count,
            defs_view(types@) == cw.types.take(i as int),
        decreases count - i,
    {
        let (name, head) = match type_head(c, i) {
            Some(h) => h,
            None => vstd::pervasive::unreached(),
        };
        let kind = read_kind(c, i, head);
        let def = WitTypeDef { name, kind };
        let ghost before = types@;
        types.push(def);
        assert(types@ == before.push(def));
        assert(def_view(def).name == cw.types[i as int].name);
        assert(def_view(def).kind == cw.types[i as int].kind);
        assert(def_view(def) == cw.types[i as int]);
        assert(defs_view(types@) =~= defs_view(before).push(def_view(def)));
        assert(cw.types.take(i + 1) =~= cw.types.take(i as int).push(cw.types[i as int]));
        i = i + 1;
    }
    assert(cw.types.take(count as int) =~= cw.types);
    let count = import_count(c);
    let mut imports: Vec<WitImport> = Vec::new();
    let mut i: usize = 0;
    while i < count
        invariant
            cw == component_world(c.bytes@),
            count == cw.imports.len(),
            i <= count,
            imports_view(imports@) == cw.imports.take(i as int),
        decreases count - i,
    {
        let head = match import_head(c, i) {
            Some(h) => h,
            None => vstd::pervasive::unreached(),
        };
        let imp = match head {
            ImportHead::Interface { name, functions: n } => {
                let ghost all = cw.imports[i as int]->functions;
                let mut functions: Vec<WitFunction> = Vec::new();
                let mut j: usize = 0;
                while j < n
                    invariant
                        cw == component_world(c.bytes@),
                        count == cw.imports.len(),
                        i < count,
                        cw.imports[i as int] == (ImportV::Interface { name: name@, functions: all }),
                        all.len() == n,
                        j <= n,
                        functions_view(functions@) == all.take(j as int),
                    decreases n - j,
                {
                    let f = read_function(c, i, j);
                    let ghost before = functions@;
                    functions.push(f);
                    assert(functions@ == before.push(f));
                    assert(function_v(cw, i as int, j as int) == Some(all[j as int]));
                    assert(function_view(f) == all[j as int]);
                    assert(functions_view(functions@) =~= functions_view(before).push(function_view(f)));
                    assert(all.take(j + 1) =~= all.take(j as int).push(all[j as int]));
                    j = j + 1;
                }
                assert(all.take(n as int) =~= all);
                WitImport::Interface { name, functions }
            },
            ImportHead::Function { name, params_debug } => WitImport::Function { name, params_debug },
            ImportHead::Type { name } => WitImport::Type { name },
        };
        let ghost before = imports@;
        imports.push(imp);
        assert(imports@ == before.push(imp));
        assert(import_view(imp) == cw.imports[i as int]);
        assert(imports_view(imports@) =~= imports_view(before).push(import_view(imp)));
        assert(cw.imports.take(i + 1) =~= cw.imports.take(i as int).push(cw.imports[i as int]));
        i = i + 1;
    }
    assert(cw.imports.take(count as int) =~= cw.imports);
    WitWorld { types, imports }
}

// ---------------------------------------------------------------- well-formedness

/// `t` names no defined type at position `n` or beyond.
pub open spec fn refs_below(t: WitType, n: nat) -> bool {
    t matches WitType::Id(i) ==> i < n
}

/// None of `items` names a defined type at position `n` or beyond.
pub open spec fn all_below(items: Seq<WitType>, n: nat) -> bool {
    forall|j: int| 0 <= j < items.len() ==> refs_below(#[trigger] items[j], n)
}

pub open spec fn kind_refs_below(k: KindV, n: nat) -> bool {
    match k {
        KindV::List(t) => refs_below(t, n),
        KindV::Option(t) => refs_below(t, n),
        KindV::Tuple(items) => all_below(items, n),
        KindV::Other(_) => true,
    }
}

/// Every defined type refers only to types defined before it (the table is
/// topologically sorted).
pub open spec fn types_ordered(types: Seq<DefV>) -> bool {
    forall|i: int| 0 <= i < types.len() ==> kind_refs_below(#[trigger] types[i].kind, i as nat)
}

pub open spec fn params_below(ps: Seq<(Seq<char>, WitType)>, n: nat) -> bool {
    forall|j: int| 0 <= j < ps.len() ==> refs_below(#[trigger] ps[j].1, n)
}

pub open spec fn function_refs_below(f: FunctionV, n: nat) -> bool {
    &&& params_below(f.params, n)
    &&& f.result matches Some(t) ==> refs_below(t, n)
}

pub open spec fn functions_below(fs: Seq<FunctionV>, n: nat) -> bool {
    forall|j: int| 0 <= j < fs.len() ==> function_refs_below(#[trigger] fs[j], n)
}

pub open spec fn import_refs_below(imp: ImportV, n: nat) -> bool {
    imp matches ImportV::Interface { functions, .. } ==> functions_below(functions, n)
}

pub open spec fn imports_below(imps: Seq<ImportV>, n: nat) -> bool {
    forall|i: int| 0 <= i < imps.len() ==> import_refs_below(#[trigger] imps[i], n)
}

/// The type table is ordered and every import refers into it.
pub open spec fn world_wf(w: WorldV) -> bool {
    &&& types_ordered(w.types)
    &&& imports_below(w.imports, w.types.len())
}

fn type_refs_below(t: &WitType, n: usize) -> (b: bool)
    ensures
        b == refs_below(*t, n as nat),
{
    match t {
        WitType::Id(i) => *i < n,
        _ => true,
    }
}

fn function_is_below(f: &WitFunction, n: usize) -> (b: bool)
    ensures
        b == function_refs_below(function_view(*f), n as nat),
{
    let ghost fv = function_view(*f);
    let mut j: usize = 0;
    while j < f.params.len()
        invariant
            fv == function_view(*f),
            j <= f.params@.len(),
            forall|m: int| 0 <= m < j ==> refs_below(#[trigger] fv.params[m].1, n as nat),
        decreases f.params@.len() - j,
    {
        if !type_refs_below(&f.params[j].1, n) {
            assert(fv.params[j as int].1 == f.params@[j as int].1);
            return false;
        }
        j = j + 1;
    }
    match &f.result {
        Some(t) => type_refs_below(t, n),
        None => true,
    }
}

#[verifier::loop_isolation(false)]
fn kind_is_below(k: &WitTypeDefKind, n: usize) -> (b: bool)
    ensures
        b == kind_refs_below(kind_view(*k), n as nat),
{
    match k {
        WitTypeDefKind::List(t) => type_refs_below(t, n),
        WitTypeDefKind::Option(t) => type_refs_below(t, n),
        WitTypeDefKind::Tuple(items) => {
            let mut j: usize = 0;
            while j < items.len()
                invariant
                    j <= items@.len(),
                    forall|m: int| 0 <= m < j ==> refs_below(#[trigger] items@[m], n as nat),
                decreases items@.len() - j,
            {
                if !type_refs_below(&items[j], n) {
                    assert(kind_view(*k) == KindV::Tuple(items@));
                    assert(!refs_below(items@[j as int], n as nat));
                    return false;
                }
                j = j + 1;
            }
            true
        },
        WitTypeDefKind::Other(_) => true,
    }
}

#[verifier::loop_isolation(false)]
fn import_is_below(imp: &WitImport, n: usize) -> (b: bool)
    ensures
        b == import_refs_below(import_view(*imp), n as nat),
{
    match imp {
        WitImport::Interface { name, functions } => {
            let ghost fvs = functions_view(functions@);
            let mut j: usize = 0;
            while j < functions.len()
                invariant
                    fvs == functions_view(functions@),
                    j <= functions@.len(),
                    forall|m: int| 0 <= m < j ==> function_refs_below(#[trigger] fvs[m], n as nat),
                decreases functions@.len() - j,
            {
                assert(fvs[j as int] == function_view(functions@[j as int]));
                if !function_is_below(&functions[j], n) {
                    return false;
                }
                j = j + 1;
            }
            true
        },
        _ => true,
    }
}

/// Whether the world is well formed, as `world_wf` says.
#[verifier::loop_isolation(false)]
pub fn world_is_wf(w: &WitWorld) -> (b: bool)
    ensures
        b == world_wf(world_view(*w)),
{
    let ghost wv = world_view(*w);
    let mut i: usize = 0;
    while i < w.types.len()
        invariant
            wv == world_view(*w),
            i <= w.types@.len(),
            forall|m: int| 0 <= m < i ==> kind_refs_below(#[trigger] wv.types[m].kind, m as nat),
        decreases w.types@.len() - i,
    {
        assert(wv.types[i as int] == def_view(w.types@[i as int]));
        if !kind_is_below(&w.types[i].kind, i) {
            assert(!kind_refs_below(wv.types[i as int].kind, i as nat));
            return false;
        }
        i = i + 1;
    }
    let n = w.types.len();
    let mut i: usize = 0;
    while i < w.imports.len()
        invariant
            wv == world_view(*w),
            n == w.types@.len(),
            types_ordered(wv.types),
            i <= w.imports@.len(),
            forall|m: int| 0 <= m < i ==> import_refs_below(#[trigger] wv.imports[m], n as nat),
        decreases w.imports@.len() - i,
    {
        assert(wv.imports[i as int] == import_view(w.imports@[i as int]));
        if !import_is_below(&w.imports[i], n) {
            assert(!import_refs_below(wv.imports[i as int], n as nat));
            return false;
        }
        i = i + 1;
    }
    true
}

// ---------------------------------------------------------------- texts

/// The readable text of a type, looking defined types up among the first
/// `bound` entries of `types`: a primitive's WIT name; a defined type's name if
/// it has one, else its structure (`list<T>`, `option<T>`, `tuple<T, U, ...>`,
/// or the debug text of any other structure).
pub open spec fn type_text(types: Seq<DefV>, t: WitType, bound: nat) -> Seq<char>
    decreases bound, t,
{
    match t {
        WitType::Bool => "bool"@,
        WitType::U8 => "u8"@,
        WitType::U16 => "u16"@,
        WitType::U32 => "u32"@,
        WitType::U64 => "u64"@,
        WitType::S8 => "s8"@,
        WitType::S16 => "s16"@,
        WitType::S32 => "s32"@,
        WitType::S64 => "s64"@,
        WitType::F32 => "f32"@,
        WitType::F64 => "f64"@,
        WitType::Char => "char"@,
        WitType::String => "string"@,
        WitType::ErrorContext => "error-context"@,
        WitType::Id(i) => if i < bound && i < types.len() {
            match types[i as int].name {
                Some(n) => n,
                None => match types[i as int].kind {
                    KindV::List(inner) => "list<"@ + type_text(types, inner, i as nat) + ">"@,
                    KindV::Option(inner) => "option<"@ + type_text(types, inner, i as nat) + ">"@,
                    KindV::Tuple(items) => "tuple<"@ + items_text(types, items, i as nat) + ">"@,
                    KindV::Other(debug) => debug,
                },
            }
        } else {
            Seq::empty()
        },
    }
}

/// The texts of `items` joined with `, `.
pub open spec fn items_text(types: Seq<DefV>, items: Seq<WitType>, bound: nat) -> Seq<char>
    decreases bound, items,
{
    if items.len() == 0 {
        Seq::empty()
    } else if items.len() == 1 {
        type_text(types, items[0], bound)
    } else {
        items_text(types, items.drop_last(), bound) + ", "@ + type_text(types, items.last(), bound)
    }
}

fn type_name_below(types: &Vec<WitTypeDef>, ty: &WitType, bound: usize) -> (r: String)
    requires
        types_ordered(defs_view(types@)),
        bound <= types@.len(),
        refs_below(*ty, bound as nat),
    ensures
        r@ == type_text(defs_view(types@), *ty, bound as nat),
    decreases bound,
{
    let ghost tv = defs_view(types@);
    match ty {
        WitType::Bool => String::from_str("bool"),
        WitType::U8 => String::from_str("u8"),
        WitType::U16 => String::from_str("u16"),
        WitType::U32 => String::from_str("u32"),
        WitType::U64 => String::from_str("u64"),
        WitType::S8 => String::from_str("s8"),
        WitType::S16 => String::from_str("s16"),
        WitType::S32 => String::from_str("s32"),
        WitType::S64 => String::from_str("s64"),
        WitType::F32 => String::from_str("f32"),
        WitType::F64 => String::from_str("f64"),
        WitType::Char => String::from_str("char"),
        WitType::String => String::from_str("string"),
        WitType::ErrorContext => String::from_str("error-context"),
        WitType::Id(i) => {
            let i = *i;
            let def = &types[i];
            assert(tv[i as int] == def_view(types@[i as int]));
            assert(kind_refs_below(tv[i as int].kind, i as nat));
            match &def.name {
                Some(n) => n.clone(),
                None => match &def.kind {
                    WitTypeDefKind::List(inner) => {
                        let mut s = String::from_str("list<");
                        let t = type_name_below(types, inner, i);
                        s.append(t.as_str());
                        s.append(">");
                        s
                    },
                    WitTypeDefKind::Option(inner) => {
                        let mut s = String::from_str("option<");
                        let t = type_name_below(types, inner, i);
                        s.append(t.as_str());
                        s.append(">");
                        s
                    },
                    WitTypeDefKind::Tuple(items) => {
                        let mut s = String::from_str("tuple<");
                        let mut j: usize = 0;
                        while j < items.len()
                            invariant
                                tv == defs_view(types@),
                                i < bound <= types@.len(),
                                types_ordered(tv),
                                forall|m: int| 0 <= m < items@.len() ==> refs_below(#[trigger] items@[m], i as nat),
                                j <= items@.len(),
                                s@ == "tuple<"@ + items_text(tv, items@.take(j as int), i as nat),
                            decreases items@.len() - j,
                        {
                            assert(items@.take(j + 1).drop_last() =~= items@.take(j as int));
                            if j > 0 {
                                s.append(", ");
                            }
                            let t = type_name_below(types, &items[j], i);
                            s.append(t.as_str());
                            assert(s@ =~= "tuple<"@ + items_text(tv, items@.take(j + 1), i as nat));
                            j = j + 1;
                        }
                        assert(items@.take(items@.len() as int) =~= items@);
                        s.append(">");
                        s
                    },
                    WitTypeDefKind::Other(debug) => debug.clone(),
                },
            }
        },
    }
}

/// The readable text of `ty`, whose defined types are looked up in `types`.
pub fn wit_type_name(types: &Vec<WitTypeDef>, ty: &WitType) -> (r: String)
    requires
        types_ordered(defs_view(types@)),
        refs_below(*ty, types@.len()),
    ensures
        r@ == type_text(defs_view(types@), *ty, types@.len()),
{
    type_name_below(types, ty, types.len())
}

/// `name: type` for one parameter.
pub open spec fn param_text(types: Seq<DefV>, p: (Seq<char>, WitType)) -> Seq<char> {
    p.0 + ": "@ + type_text(types, p.1, types.len())
}

/// The parameters' texts joined with `, `.
pub open spec fn params_text(types: Seq<DefV>, ps: Seq<(Seq<char>, WitType)>) -> Seq<char>
    decreases ps.len(),
{
    if ps.len() == 0 {
        Seq::empty()
    } else if ps.len() == 1 {
        param_text(types, ps[0])
    } else {
        params_text(types, ps.drop_last()) + ", "@ + param_text(types, ps.last())
    }
}

/// The listing line of a function of an imported interface: indented, its
/// name, its parameters in parentheses, and ` -> ` with its result type if it has one.
pub open spec fn function_text(types: Seq<DefV>, f: FunctionV) -> Seq<char> {
    "    "@ + f.name + "("@ + params_text(types, f.params) + ")"@ + match f.result {
        Some(t) => " -> "@ + type_text(types, t, types.len()),
        None => Seq::empty(),
    }
}

/// The listing lines of one import: `interface NAME` and a line per function;
/// `function NAME : PARAMS`; or `type NAME`.
pub open spec fn import_text(types: Seq<DefV>, imp: ImportV) -> Seq<Seq<char>> {
    match imp {
        ImportV::Interface { name, functions } => seq!["interface "@ + name] + functions.map_values(
            |f: FunctionV| function_text(types, f),
        ),
        ImportV::Function { name, params_debug } => seq!["function "@ + name + " : "@ + params_debug],
        ImportV::Type { name } => seq!["type "@ + name],
    }
}

/// The listing lines of the imports, in order.
pub open spec fn imports_text(types: Seq<DefV>, imps: Seq<ImportV>) -> Seq<Seq<char>>
    decreases imps.len(),
{
    if imps.len() == 0 {
        Seq::empty()
    } else {
        imports_text(types, imps.drop_last()) + import_text(types, imps.last())
    }
}

/// The listing of a world.
pub open spec fn listing_text(w: WorldV) -> Seq<Seq<char>> {
    imports_text(w.types, w.imports)
}

/// The texts of some strings.
pub open spec fn texts(lines: Seq<String>) -> Seq<Seq<char>> {
    lines.map_values(|s: String| s@)
}

// ---------------------------------------------------------------- laws of the texts

/// Each primitive WIT type reads as its own WIT name, whatever the type table.
pub proof fn lemma_primitive_names(types: Seq<DefV>, bound: nat)
    ensures
        type_text(types, WitType::Bool, bound) == "bool"@,
        type_text(types, WitType::U8, bound) == "u8"@,
        type_text(types, WitType::U16, bound) == "u16"@,
        type_text(types, WitType::U32, bound) == "u32"@,
        type_text(types, WitType::U64, bound) == "u64"@,
        type_text(types, WitType::S8, bound) == "s8"@,
        type_text(types, WitType::S16, bound) == "s16"@,
        type_text(types, WitType::S32, bound) == "s32"@,
        type_text(types, WitType::S64, bound) == "s64"@,
        type_text(types, WitType::F32, bound) == "f32"@,
        type_text(types, WitType::F64, bound) == "f64"@,
        type_text(types, WitType::Char, bound) == "char"@,
        type_text(types, WitType::String, bound) == "string"@,
        type_text(types, WitType::ErrorContext, bound) == "error-context"@,
{
}

/// A defined type that has a name reads as that name, whatever its structure.
pub proof fn lemma_named_type_reads_as_name(types: Seq<DefV>, i: usize, bound: nat, n: Seq<char>)
    requires
        i < bound,
        i < types.len(),
        types[i as int].name == Some(n),
    ensures
        type_text(types, WitType::Id(i), bound) == n,
{
}

/// An unnamed defined type reads as its structure: `list<T>` or `option<T>`
/// around the text of its element, `tuple<...>` around the texts of its items,
/// or the debug text of any other structure.
pub proof fn lemma_unnamed_type_reads_as_structure(types: Seq<DefV>, i: usize, bound: nat)
    requires
        i < bound,
        i < types.len(),
        types[i as int].name is None,
    ensures
        types[i as int].kind matches KindV::List(t) ==> type_text(types, WitType::Id(i), bound)
            == "list<"@ + type_text(types, t, i as nat) + ">"@,
        types[i as int].kind matches KindV::Option(t) ==> type_text(types, WitType::Id(i), bound)
            == "option<"@ + type_text(types, t, i as nat) + ">"@,
        types[i as int].kind matches KindV::Tuple(items) ==> type_text(types, WitType::Id(i), bound)
            == "tuple<"@ + items_text(types, items, i as nat) + ">"@,
        types[i as int].kind matches KindV::Other(d) ==> type_text(types, WitType::Id(i), bound) == d,
{
}

/// A parameter list splits after any of its parameters at exactly `, `: the
/// text of the first `k` parameters, `, `, and the text of the rest.
pub proof fn lemma_params_text_split(types: Seq<DefV>, ps: Seq<(Seq<char>, WitType)>, k: int)
    requires
        0 < k < ps.len(),
    ensures
        params_text(types, ps) == params_text(types, ps.take(k)) + ", "@ + params_text(types, ps.skip(k)),
    decreases ps.len(),
{
    let sep = ", "@;
    if k == ps.len() - 1 {
        assert(ps.take(k) =~= ps.drop_last());
        assert(ps.skip(k) =~= seq![ps.last()]);
        assert(params_text(types, ps.skip(k)) == param_text(types, ps.last()));
    } else {
        let d = ps.drop_last();
        lemma_params_text_split(types, d, k);
        let rest = ps.skip(k);
        assert(d.take(k) =~= ps.take(k));
        assert(d.skip(k) =~= rest.drop_last());
        assert(rest.last() == ps.last());
        assert(rest.len() >= 2);
        let a = params_text(types, ps.take(k));
        let b = params_text(types, rest.drop_last());
        let c = param_text(types, ps.last());
        assert(params_text(types, rest) == b + sep + c);
        assert(params_text(types, ps) == a + sep + b + sep + c);
        assert(a + sep + b + sep + c =~= a + sep + (b + sep + c));
    }
}

/// The items of a tuple split after any of them at exactly `, `, as parameter
/// lists do.
pub proof fn lemma_items_text_split(types: Seq<DefV>, items: Seq<WitType>, bound: nat, k: int)
    requires
        0 < k < items.len(),
    ensures
        items_text(types, items, bound) == items_text(types, items.take(k), bound) + ", "@ + items_text(
            types,
            items.skip(k),
            bound,
        ),
    decreases items.len(),
{
    let sep = ", "@;
    if k == items.len() - 1 {
        assert(items.take(k) =~= items.drop_last());
        assert(items.skip(k) =~= seq![items.last()]);
        assert(items_text(types, items.skip(k), bound) == type_text(types, items.last(), bound));
    } else {
        let d = items.drop_last();
        lemma_items_text_split(types, d, bound, k);
        let rest = items.skip(k);
        assert(d.take(k) =~= items.take(k));
        assert(d.skip(k) =~= rest.drop_last());
        assert(rest.last() == items.last());
        let a = items_text(types, items.take(k), bound);
        let b = items_text(types, rest.drop_last(), bound);
        let c = type_text(types, items.last(), bound);
        assert(items_text(types, rest, bound) == b + sep + c);
        assert(items_text(types, items, bound) == a + sep + b + sep + c);
        assert(a + sep + b + sep + c =~= a + sep + (b + sep + c));
    }
}

/// A function's listing line with a result is its line without one followed
/// by ` -> ` and the result's type; without parameters the parentheses are empty.
pub proof fn lemma_function_text_parts(types: Seq<DefV>, f: FunctionV)
    ensures
        f.result matches Some(t) ==> function_text(types, f) == function_text(
            types,
            FunctionV { result: None, ..f },
        ) + " -> "@ + type_text(types, t, types.len()),
        f.result is None ==> function_text(types, f) == "    "@ + f.name + "("@ + params_text(types, f.params)
            + ")"@,
        f.params.len() == 0 ==> params_text(types, f.params) == Seq::<char>::empty(),
{
    let g = FunctionV { result: None, ..f };
    assert(function_text(types, g) =~= "    "@ + f.name + "("@ + params_text(types, f.params) + ")"@);
    if f.result is Some {
        assert(function_text(types, f) =~= function_text(types, g) + " -> "@ + type_text(
            types,
            f.result->0,
            types.len(),
        ));
    } else {
        assert(function_text(types, f) =~= function_text(types, g));
    }
}

/// An imported interface lists as a line `interface NAME` followed by one line
/// per function, in order; any other import lists as one line.
pub proof fn lemma_import_text_lines(types: Seq<DefV>, imp: ImportV)
    ensures
        imp matches ImportV::Interface { name, functions } ==> {
            &&& import_text(types, imp).len() == functions.len() + 1
            &&& import_text(types, imp)[0] == "interface "@ + name
            &&& forall|j: int| 0 <= j < functions.len() ==> #[trigger] import_text(types, imp)[j + 1]
                == function_text(types, functions[j])
        },
        !(imp is Interface) ==> import_text(types, imp).len() == 1,
{
}

/// The listing of two runs of imports is the listing of the first followed by
/// that of the second.
pub proof fn lemma_imports_text_concat(types: Seq<DefV>, a: Seq<ImportV>, b: Seq<ImportV>)
    ensures
        imports_text(types, a + b) == imports_text(types, a) + imports_text(types, b),
    decreases b.len(),
{
    if b.len() == 0 {
        assert(a + b =~= a);
        assert(imports_text(types, a) + imports_text(types, b) =~= imports_text(types, a));
    } else {
        lemma_imports_text_concat(types, a, b.drop_last());
        assert((a + b).drop_last() =~= a + b.drop_last());
        assert((a + b).last() == b.last());
        assert(imports_text(types, a + b) =~= imports_text(types, a) + imports_text(types, b));
    }
}

/// The listing line of a function of an imported interface.
pub fn function_line(types: &Vec<WitTypeDef>, f: &WitFunction) -> (r: String)
    requires
        types_ordered(defs_view(types@)),
        function_refs_below(function_view(*f), types@.len()),
    ensures
        r@ == function_text(defs_view(types@), function_view(*f)),
{
    let ghost tv = defs_view(types@);
    let ghost fv = function_view(*f);
    let mut s = String::from_str("    ");
    s.append(f.name.as_str());
    s.append("(");
    let ghost head = s@;
    let mut i: usize = 0;
    while i < f.params.len()
        invariant
            tv == defs_view(types@),
            fv == function_view(*f),
            types_ordered(tv),
            function_refs_below(fv, types@.len()),
            i <= f.params@.len(),
            s@ == head + params_text(tv, fv.params.take(i as int)),
        decreases f.params@.len() - i,
    {
        assert(fv.params.take(i + 1).drop_last() =~= fv.params.take(i as int));
        if i > 0 {
            s.append(", ");
        }
        let (pname, pty) = &f.params[i];
        assert(fv.params[i as int] == param_view(f.params@[i as int]));
        assert(refs_below(fv.params[i as int].1, types@.len()));
        s.append(pname.as_str());
        s.append(": ");
        let t = wit_type_name(types, pty);
        s.append(t.as_str());
        assert(s@ =~= head + params_text(tv, fv.params.take(i + 1)));
        i = i + 1;
    }
    assert(fv.params.take(f.params@.len() as int) =~= fv.params);
    s.append(")");
    match &f.result {
        Some(ty) => {
            s.append(" -> ");
            let t = wit_type_name(types, ty);
            s.append(t.as_str());
        },
        None => {},
    }
    assert(s@ =~= function_text(tv, fv));
    s
}

/// The listing of a well-formed world: one line per import, and one more per
/// function of an imported interface.
pub fn import_lines(world: &WitWorld) -> (r: Vec<String>)
    requires
        world_wf(world_view(*world)),
    ensures
        texts(r@) == listing_text(world_view(*world)),
{
    let ghost wv = world_view(*world);
    let types = &world.types;
    let mut lines: Vec<String> = Vec::new();
    let mut i: usize = 0;
    while i < world.imports.len()
        invariant
            wv == world_view(*world),
            world_wf(wv),
            types == &world.types,
            i <= world.imports@.len(),
            texts(lines@) == imports_text(wv.types, wv.imports.take(i as int)),
        decreases world.imports@.len() - i,
    {
        let ghost before = lines@;
        assert(wv.imports.take(i + 1).drop_last() =~= wv.imports.take(i as int));
        assert(wv.imports[i as int] == import_view(world.imports@[i as int]));
        assert(import_refs_below(wv.imports[i as int], types@.len()));
        match &world.imports[i] {
            WitImport::Interface { name, functions } => {
                let ghost fvs = functions_view(functions@);
                assert(wv.imports[i as int] == (ImportV::Interface { name: name@, functions: fvs }));
                assert(import_refs_below(ImportV::Interface { name: name@, functions: fvs }, types@.len()));

                let mut s = String::from_str("interface ");
                s.append(name.as_str());
                lines.push(s);
                let mut j: usize = 0;
                while j < functions.len()
                    invariant
                        wv == world_view(*world),
                        world_wf(wv),
                        types == &world.types,
                        fvs == functions_view(functions@),
                        forall|m: int| 0 <= m < fvs.len() ==> function_refs_below(#[trigger] fvs[m], types@.len()),
                        j <= functions@.len(),
                        texts(lines@) == texts(before) + seq!["interface "@ + name@] + fvs.take(j as int).map_values(
                            |f: FunctionV| function_text(wv.types, f),
                        ),
                    decreases functions@.len() - j,
                {
                    assert(fvs[j as int] == function_view(functions@[j as int]));
                    let line = function_line(types, &functions[j]);
                    let ghost prev = lines@;
                    lines.push(line);
                    assert(texts(lines@) =~= texts(prev).push(function_text(wv.types, fvs[j as int])));
                    assert(fvs.take(j + 1).map_values(|f: FunctionV| function_text(wv.types, f))
                        =~= fvs.take(j as int).map_values(|f: FunctionV| function_text(wv.types, f)).push(function_text(wv.types, fvs[j as int])));
                    assert(texts(lines@) =~= texts(before) + seq!["interface "@ + name@] + fvs.take(j + 1).map_values(
                        |f: FunctionV| function_text(wv.types, f),
                    ));
                    j = j + 1;
                }
                assert(fvs.take(functions@.len() as int) =~= fvs);
            },
            WitImport::Function { name, params_debug } => {
                let mut s = String::from_str("function ");
                s.append(name.as_str());
                s.append(" : ");
                s.append(params_debug.as_str());
                lines.push(s);
            },
            WitImport::Type { name } => {
                let mut s = String::from_str("type ");
                s.append(name.as_str());
                lines.push(s);
            },
        }
        assert(texts(lines@) =~= imports_text(wv.types, wv.imports.take(i + 1)));
        i = i + 1;
    }
    assert(wv.imports.take(world.imports@.len() as int) =~= wv.imports);
    lines
}

/// Why a wasm binary gives no import listing.
#[derive(Debug)]
pub enum ListError {
    /// The binary holds WIT packages, not a component.
    NotComponent,
    /// The binary does not decode; the decoder's error with its causes.
    Invalid(String),
}

/// The import listing of the component in `bytes`: a line per import and one
/// more per function of an imported interface.
pub fn list_imports(bytes: &[u8]) -> (r: Result<Vec<String>, ListError>)
    ensures
        match decoded(bytes@) {
            DecodedV::Component(w) => r matches Ok(lines) && texts(lines@) == listing_text(w),
            DecodedV::Package => r matches Err(ListError::NotComponent),
            DecodedV::Invalid(m) => r matches Err(ListError::Invalid(s)) && s@ == m,
        },
{
    match decode_component(bytes) {
        Ok(c) => {
            let world = read_world(&c);
            Ok(import_lines(&world))
        },
        Err(DecodeFailure::NotComponent) => Err(ListError::NotComponent),
        Err(DecodeFailure::Invalid(message)) => Err(ListError::Invalid(message)),
    }
}

} // verus!
