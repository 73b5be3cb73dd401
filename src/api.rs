//! The parts of an OpenAPI description that the engine reads, as plain values,
//! with reference resolution, operation matching and the parameter table.

use vstd::prelude::*;
use vstd::string::*;

verus! {

/// Where a parameter is sent. Path and cookie parameters are `Other`.
#[derive(PartialEq, Eq, Structural, Clone, Copy, Debug)]
pub enum ParamLocation {
    Header,
    Query,
    Other,
}

/// A declared parameter: its location, name, and example as JSON text.
pub struct SpecParameter {
    pub location: ParamLocation,
    pub name: String,
    pub example: Option<String>,
}

/// The abstract value of a parameter.
pub struct ParamView {
    pub location: ParamLocation,
    pub name: Seq<char>,
    pub example: Option<Seq<char>>,
}

pub open spec fn opt_view(o: Option<String>) -> Option<Seq<char>> {
    match o {
        Some(s) => Some(s@),
        None => None,
    }
}

impl View for SpecParameter {
    type V = ParamView;

    open spec fn view(&self) -> ParamView {
        ParamView { location: self.location, name: self.name@, example: opt_view(self.example) }
    }
}

pub fn copy_text(o: &Option<String>) -> (r: Option<String>)
    ensures
        opt_view(r) == opt_view(*o),
{
    match o {
        Some(s) => Some(s.clone()),
        None => None,
    }
}

impl SpecParameter {
    pub fn duplicate(&self) -> (r: SpecParameter)
        ensures
            r@ == self@,
    {
        SpecParameter {
            location: self.location,
            name: self.name.clone(),
            example: copy_text(&self.example),
        }
    }
}

/// An item given inline, or a pointer such as `#/components/schemas/Pet`.
pub enum RefOr<T> {
    Item(T),
    Reference(String),
}

/// A named entry of a component table.
pub struct Component<T> {
    pub key: String,
    pub entry: RefOr<T>,
}

/// A schema; only its example is read.
pub struct Schema {
    pub example: Option<String>,
}

/// A media type entry of a request body.
pub struct MediaType {
    pub example: Option<String>,
    pub schema: Option<RefOr<Schema>>,
}

pub struct ContentEntry {
    pub media_type: String,
    pub media: MediaType,
}

pub struct RequestBody {
    pub content: Vec<ContentEntry>,
}

/// The reusable component tables of a description.
pub struct Components {
    pub parameters: Vec<Component<SpecParameter>>,
    pub request_bodies: Vec<Component<RequestBody>>,
    pub schemas: Vec<Component<Schema>>,
}

pub struct Operation {
    pub parameters: Vec<RefOr<SpecParameter>>,
    pub request_body: Option<RefOr<RequestBody>>,
}

pub struct PathItem {
    pub get: Option<Operation>,
    pub post: Option<Operation>,
    pub put: Option<Operation>,
    pub delete: Option<Operation>,
    pub patch: Option<Operation>,
    pub head: Option<Operation>,
    pub options: Option<Operation>,
}

/// A path of the description; `item` is `None` where the path is itself a reference.
pub struct PathEntry {
    pub path: String,
    pub item: Option<PathItem>,
}

pub struct ApiSpec {
    pub paths: Vec<PathEntry>,
    pub components: Option<Components>,
}

/// Why a description could not serve a request.
#[derive(PartialEq, Eq, Structural, Clone, Copy, Debug)]
pub enum CompletionError {
    UnresolvedReference,
    NoMatchingPath,
    NoMatchingOperation,
    InvalidHeaderName,
}

// ---------------------------------------------------------------- references

/// The index of the last `/` of `s`.
pub open spec fn last_slash(s: Seq<char>) -> Option<int>
    decreases s.len(),
{
    if s.len() == 0 {
        None
    } else if s.last() == '/' {
        Some(s.len() - 1)
    } else {
        last_slash(s.drop_last())
    }
}

/// The lookup key of a pointer: what follows its last `/`.
pub open spec fn ref_key(s: Seq<char>) -> Option<Seq<char>> {
    match last_slash(s) {
        Some(i) => Some(s.skip(i + 1)),
        None => None,
    }
}

pub fn reference_key(s: &str) -> (r: Option<String>)
    ensures
        opt_view(r) == ref_key(s@),
{
    let n = s.unicode_len();
    let mut i: usize = n;
    assert(s@.take(n as int) =~= s@);
    while i > 0
        invariant
            i <= n,
            n == s@.len(),
            last_slash(s@) == last_slash(s@.take(i as int)),
        decreases i,
    {
        assert(s@.take(i as int).drop_last() =~= s@.take(i - 1));
        if s.get_char(i - 1) == '/' {
            assert(s@.skip(i as int) =~= s@.subrange(i as int, n as int));
            return Some(s.substring_char(i, n).to_owned());
        }
        i = i - 1;
    }
    None
}

/// The index of the first entry of `table` with key `k`.
pub open spec fn find_component<T>(table: Seq<Component<T>>, k: Seq<char>) -> Option<int> {
    if exists|j: int| 0 <= j < table.len() && table[j].key@ == k {
        let j = choose|j: int|
            0 <= j < table.len() && table[j].key@ == k && forall|i: int|
                0 <= i < j ==> table[i].key@ != k;
        Some(j)
    } else {
        None
    }
}

/// Following at most `fuel` pointers from `r` through `table`.
pub open spec fn resolve_within<T>(table: Seq<Component<T>>, r: RefOr<T>, fuel: nat) -> Option<T>
    decreases fuel,
{
    match r {
        RefOr::Item(x) => Some(x),
        RefOr::Reference(s) => if fuel == 0 {
            None
        } else {
            match ref_key(s@) {
                None => None,
                Some(k) => match find_component(table, k) {
                    Some(j) => resolve_within(table, table[j].entry, (fuel - 1) as nat),
                    None => None,
                },
            }
        },
    }
}

/// What `r` stands for. A chain of pointers that follows more pointers than
/// the table has entries revisits one of them, and so never ends: it resolves
/// to nothing, as does a pointer with no table, a key that is absent, or a
/// pointer without a `/`.
#[verifier::opaque]
pub open spec fn resolved<T>(table: Option<Seq<Component<T>>>, r: RefOr<T>) -> Option<T> {
    match r {
        RefOr::Item(x) => Some(x),
        RefOr::Reference(_) => match table {
            None => None,
            Some(t) => resolve_within(t, r, t.len()),
        },
    }
}

pub open spec fn table_view<T>(table: Option<&Vec<Component<T>>>) -> Option<Seq<Component<T>>> {
    match table {
        Some(t) => Some(t@),
        None => None,
    }
}

pub fn find_component_index<T>(table: &Vec<Component<T>>, k: &String) -> (r: Option<usize>)
    ensures
        match r {
            Some(j) => find_component(table@, k@) == Some(j as int) && j < table@.len(),
            None => find_component(table@, k@) is None,
        },
{
    let mut i: usize = 0;
    while i < table.len()
        invariant
            i <= table.len(),
            forall|j: int| 0 <= j < i ==> table@[j].key@ != k@,
        decreases table.len() - i,
    {
        if table[i].key == *k {
            return Some(i);
        }
        i = i + 1;
    }
    None
}

/// Resolves `r` against `table`, following pointers until an inline item.
pub fn resolve<'a, T>(r: &'a RefOr<T>, table: Option<&'a Vec<Component<T>>>) -> (res: Result<
    &'a T,
    CompletionError,
>)
    ensures
        match res {
            Ok(x) => resolved(table_view(table), *r) == Some(*x),
            Err(e) => resolved(table_view(table), *r) is None && e == CompletionError::UnresolvedReference,
        },
{
    reveal(resolved);
    let t = match r {
        RefOr::Item(x) => {
            return Ok(x);
        },
        RefOr::Reference(_) => match table {
            Some(t) => t,
            None => {
                return Err(CompletionError::UnresolvedReference);
            },
        },
    };
    let mut cur: &'a RefOr<T> = r;
    let mut fuel: usize = t.len();
    loop
        invariant
            fuel <= t@.len(),
            resolved(table_view(table), *r) == resolve_within(t@, *cur, fuel as nat),
            table == Some(t),
            r is Reference,
        decreases fuel,
    {
        match cur {
            RefOr::Item(x) => {
                return Ok(x);
            },
            RefOr::Reference(s) => {
                if fuel == 0 {
                    return Err(CompletionError::UnresolvedReference);
                }
                let key = match reference_key(s.as_str()) {
                    Some(k) => k,
                    None => {
                        return Err(CompletionError::UnresolvedReference);
                    },
                };
                let j = match find_component_index(t, &key) {
                    Some(j) => j,
                    None => {
                        return Err(CompletionError::UnresolvedReference);
                    },
                };
                cur = &t[j].entry;
                fuel = fuel - 1;
            },
        }
    }
}

/// The component table that parameter pointers are looked up in.
pub open spec fn parameter_components(c: Option<Components>) -> Option<Seq<Component<SpecParameter>>> {
    match c {
        Some(c) => Some(c.parameters@),
        None => None,
    }
}

pub open spec fn body_components(c: Option<Components>) -> Option<Seq<Component<RequestBody>>> {
    match c {
        Some(c) => Some(c.request_bodies@),
        None => None,
    }
}

pub open spec fn schema_components(c: Option<Components>) -> Option<Seq<Component<Schema>>> {
    match c {
        Some(c) => Some(c.schemas@),
        None => None,
    }
}

pub fn resolve_parameter<'a>(r: &'a RefOr<SpecParameter>, c: &'a Option<Components>) -> (res:
    Result<&'a SpecParameter, CompletionError>)
    ensures
        match res {
            Ok(x) => resolved(parameter_components(*c), *r) == Some(*x),
            Err(e) => resolved(parameter_components(*c), *r) is None && e
                == CompletionError::UnresolvedReference,
        },
{
    match c {
        Some(comps) => resolve(r, Some(&comps.parameters)),
        None => resolve(r, None),
    }
}

pub fn resolve_request_body<'a>(r: &'a RefOr<RequestBody>, c: &'a Option<Components>) -> (res:
    Result<&'a RequestBody, CompletionError>)
    ensures
        match res {
            Ok(x) => resolved(body_components(*c), *r) == Some(*x),
            Err(e) => resolved(body_components(*c), *r) is None && e
                == CompletionError::UnresolvedReference,
        },
{
    match c {
        Some(comps) => resolve(r, Some(&comps.request_bodies)),
        None => resolve(r, None),
    }
}

pub fn resolve_schema<'a>(r: &'a RefOr<Schema>, c: &'a Option<Components>) -> (res: Result<
    &'a Schema,
    CompletionError,
>)
    ensures
        match res {
            Ok(x) => resolved(schema_components(*c), *r) == Some(*x),
            Err(e) => resolved(schema_components(*c), *r) is None && e
                == CompletionError::UnresolvedReference,
        },
{
    match c {
        Some(comps) => resolve(r, Some(&comps.schemas)),
        None => resolve(r, None),
    }
}

// ---------------------------------------------------------------- operations

/// Whether two texts are equal.
pub fn same_text(a: &str, b: &str) -> (r: bool)
    ensures
        r == (a@ == b@),
{
    let n = a.unicode_len();
    if n != b.unicode_len() {
        return false;
    }
    let mut i: usize = 0;
    while i < n
        invariant
            i <= n,
            n == a@.len(),
            n == b@.len(),
            a@.take(i as int) == b@.take(i as int),
        decreases n - i,
    {
        if a.get_char(i) != b.get_char(i) {
            return false;
        }
        assert(a@.take(i + 1) =~= a@.take(i as int).push(a@[i as int]));
        assert(b@.take(i + 1) =~= b@.take(i as int).push(b@[i as int]));
        i = i + 1;
    }
    assert(a@ =~= a@.take(n as int));
    assert(b@ =~= b@.take(n as int));
    true
}

/// The operation of a path item for an HTTP method, matched exactly.
pub open spec fn operation_for(item: PathItem, m: Seq<char>) -> Option<Operation> {
    if m == "GET"@ {
        item.get
    } else if m == "POST"@ {
        item.post
    } else if m == "PUT"@ {
        item.put
    } else if m == "DELETE"@ {
        item.delete
    } else if m == "PATCH"@ {
        item.patch
    } else if m == "HEAD"@ {
        item.head
    } else if m == "OPTIONS"@ {
        item.options
    } else {
        None
    }
}

/// The index of the first path entry whose text is `p`.
pub open spec fn find_path(paths: Seq<PathEntry>, p: Seq<char>) -> Option<int> {
    if exists|j: int| 0 <= j < paths.len() && paths[j].path@ == p {
        Some(
            choose|j: int|
                0 <= j < paths.len() && paths[j].path@ == p && forall|i: int|
                    0 <= i < j ==> paths[i].path@ != p,
        )
    } else {
        None
    }
}

/// The operation that serves `method` on `path`: the path must equal a
/// declared path literally (no templates), and must not be a reference.
pub open spec fn matched_operation(spec: ApiSpec, path: Seq<char>, method: Seq<char>) -> Result<
    Operation,
    CompletionError,
> {
    match find_path(spec.paths@, path) {
        None => Err(CompletionError::NoMatchingPath),
        Some(j) => match spec.paths@[j].item {
            None => Err(CompletionError::NoMatchingPath),
            Some(item) => match operation_for(item, method) {
                None => Err(CompletionError::NoMatchingOperation),
                Some(op) => Ok(op),
            },
        },
    }
}

fn select_operation<'a>(item: &'a PathItem, method: &str) -> (r: Option<&'a Operation>)
    ensures
        match (r, operation_for(*item, method@)) {
            (Some(x), Some(y)) => *x == y,
            (None, None) => true,
            _ => false,
        },
{
    let slot = if same_text(method, "GET") {
        &item.get
    } else if same_text(method, "POST") {
        &item.post
    } else if same_text(method, "PUT") {
        &item.put
    } else if same_text(method, "DELETE") {
        &item.delete
    } else if same_text(method, "PATCH") {
        &item.patch
    } else if same_text(method, "HEAD") {
        &item.head
    } else if same_text(method, "OPTIONS") {
        &item.options
    } else {
        return None;
    };
    match slot {
        Some(op) => Some(op),
        None => None,
    }
}

/// Finds the operation for a request's path and method.
pub fn match_operation<'a>(spec: &'a ApiSpec, path: &str, method: &str) -> (r: Result<
    &'a Operation,
    CompletionError,
>)
    ensures
        match (r, matched_operation(*spec, path@, method@)) {
            (Ok(x), Ok(y)) => *x == y,
            (Err(e), Err(f)) => e == f,
            _ => false,
        },
{
    let mut i: usize = 0;
    while i < spec.paths.len()
        invariant
            i <= spec.paths.len(),
            forall|j: int| 0 <= j < i ==> spec.paths@[j].path@ != path@,
        decreases spec.paths.len() - i,
    {
        if same_text(spec.paths[i].path.as_str(), path) {
            return match &spec.paths[i].item {
                None => Err(CompletionError::NoMatchingPath),
                Some(item) => match select_operation(item, method) {
                    None => Err(CompletionError::NoMatchingOperation),
                    Some(op) => Ok(op),
                },
            };
        }
        i = i + 1;
    }
    Err(CompletionError::NoMatchingPath)
}

} // verus!
