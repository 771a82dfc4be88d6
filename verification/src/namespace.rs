//! Namespace declaration, registration and call resolution.
//!
//! - The entry file (with `main`) is the default namespace, explicit or implicit.
//! - Files without a namespace declaration join the default namespace.
//! - One namespace may span several files; one file declares at most one,
//!   at its top: `namespace Name;`.
//! - UPPERCASE names are reserved for the system (`RUST`, `HUST`); user
//!   namespaces are flat (no dots).
use vstd::prelude::*;
use crate::table::{index_in, items_of, keys_of, lookup, str_eq, StrMap};
use crate::text::{
    contains, find, find_vec, occurs_at, last_idx_of, rfind_char, with_nl, blank_or_comment, chars_of, contains_char, has_char, has_prefix, idx_of, is_blank_or_comment,
    lines, remove_first, remove_first_vec, split_lines, starts_with_str, string_of,
    string_of_range, sub_vec, trim, trim_bounds, vviews, push_str, append_vec, dec, decimal,
};
use crate::order::{sort_order, sorted_order, sorts, texts};

verus! {

/// Errors of namespace handling.
#[derive(Debug)]
pub enum NamespaceError {
    InvalidPosition(String),
    MultipleNamespaces(String),
    NotFound(String),
    AmbiguousCall(String),
    ReservedNamespace(String),
    NestedNamespace(String),
}

/// The content of a [`NamespaceError`]: its kind and its text.
pub enum NamespaceErrorView {
    InvalidPosition(Seq<char>),
    MultipleNamespaces(Seq<char>),
    NotFound(Seq<char>),
    AmbiguousCall(Seq<char>),
    ReservedNamespace(Seq<char>),
    NestedNamespace(Seq<char>),
}

impl View for NamespaceError {
    type V = NamespaceErrorView;

    open spec fn view(&self) -> NamespaceErrorView {
        match self {
            NamespaceError::InvalidPosition(s) => NamespaceErrorView::InvalidPosition(s@),
            NamespaceError::MultipleNamespaces(s) => NamespaceErrorView::MultipleNamespaces(s@),
            NamespaceError::NotFound(s) => NamespaceErrorView::NotFound(s@),
            NamespaceError::AmbiguousCall(s) => NamespaceErrorView::AmbiguousCall(s@),
            NamespaceError::ReservedNamespace(s) => NamespaceErrorView::ReservedNamespace(s@),
            NamespaceError::NestedNamespace(s) => NamespaceErrorView::NestedNamespace(s@),
        }
    }
}

/// The displayed text of an error.
pub open spec fn ns_error_text(e: NamespaceErrorView) -> Seq<char> {
    match e {
        NamespaceErrorView::InvalidPosition(s) => "Namespace declaration must be at file top: "@ + s,
        NamespaceErrorView::MultipleNamespaces(s) => "Multiple namespaces in one file: "@ + s,
        NamespaceErrorView::NotFound(s) => "Namespace not found: "@ + s,
        NamespaceErrorView::AmbiguousCall(s) => "Ambiguous call: "@ + s
            + " found in multiple namespaces"@,
        NamespaceErrorView::ReservedNamespace(s) => "Reserved namespace: "@ + s
            + " is reserved for Hust system (UPPERCASE not allowed for users)"@,
        NamespaceErrorView::NestedNamespace(s) => "Nested namespace not supported: '"@ + s
            + "'\nHust namespaces are flat - use a single name without dots\nExample: namespace math; not namespace math.utils;"@,
    }
}

/// `a + b + c` as a new string.
pub fn concat3(a: &str, b: &str, c: &str) -> (r: String)
    ensures
        r@ == a@ + b@ + c@,
{
    let mut r = String::from_str(a);
    r.append(b);
    r.append(c);
    r
}

impl NamespaceError {
    /// The error's displayed text.
    pub fn message(&self) -> (r: String)
        ensures
            r@ == ns_error_text(self@),
    {
        proof {
            reveal_strlit("");
        }
        match self {
            NamespaceError::InvalidPosition(s) => concat3(
                "Namespace declaration must be at file top: ",
                s.as_str(),
                "",
            ),
            NamespaceError::MultipleNamespaces(s) => concat3(
                "Multiple namespaces in one file: ",
                s.as_str(),
                "",
            ),
            NamespaceError::NotFound(s) => concat3("Namespace not found: ", s.as_str(), ""),
            NamespaceError::AmbiguousCall(s) => concat3(
                "Ambiguous call: ",
                s.as_str(),
                " found in multiple namespaces",
            ),
            NamespaceError::ReservedNamespace(s) => concat3(
                "Reserved namespace: ",
                s.as_str(),
                " is reserved for Hust system (UPPERCASE not allowed for users)",
            ),
            NamespaceError::NestedNamespace(s) => concat3(
                "Nested namespace not supported: '",
                s.as_str(),
                "'\nHust namespaces are flat - use a single name without dots\nExample: namespace math; not namespace math.utils;",
            ),
        }
    }
}

/// A namespace declaration.
#[derive(Debug, Clone)]
pub struct NamespaceDecl {
    pub name: String,
    pub file_path: String,
    pub line: usize,
}

/// A function registered in a namespace.
#[derive(Debug, Clone)]
pub struct FunctionInfo {
    pub name: String,
    pub namespace: String,
    pub is_public: bool,
    pub params: String,
    pub ret_type: String,
}

/// A method with its access control.
#[derive(Debug, Clone)]
pub struct MethodInfo {
    pub name: String,
    pub is_public: bool,
    pub is_static: bool,
    pub ret_type: String,
    pub params: String,
}

/// A class registered in a namespace.
#[derive(Debug, Clone)]
pub struct ClassInfo {
    pub name: String,
    pub namespace: String,
    pub is_public: bool,
    pub parent: Option<String>,
    /// inner class name -> full path
    pub nested: StrMap<String>,
    /// method name -> method
    pub methods: StrMap<MethodInfo>,
}

/// A `use` statement: `item` is `None` for a whole namespace or `.*`.
#[derive(Debug, Clone)]
pub struct UseStmt {
    pub namespace: String,
    pub item: Option<String>,
    pub alias: Option<String>,
}

/// What the registry knows: namespaces and the files that make them up,
/// functions and classes by name, use statements by file.
#[derive(Debug)]
pub struct NamespaceRegistry {
    /// namespace name -> file paths
    pub spaces: StrMap<Vec<String>>,
    /// function name -> the functions of that name
    pub functions: StrMap<Vec<FunctionInfo>>,
    /// class name -> the classes of that name
    pub classes: StrMap<Vec<ClassInfo>>,
    /// the default namespace's name
    pub default_space: String,
    /// warnings collected while registering
    pub warnings: Vec<String>,
    /// file path -> its use statements
    pub use_statements: StrMap<Vec<UseStmt>>,
}

/// The texts of a sequence of strings.
pub open spec fn strs(v: Seq<String>) -> Seq<Seq<char>> {
    v.map_values(|s: String| s@)
}

/// Every character is an ASCII capital or `_` (true of the empty name).
pub open spec fn is_reserved(name: Seq<char>) -> bool {
    forall|i: int| 0 <= i < name.len() ==> ('A' <= #[trigger] name[i] <= 'Z' || name[i] == '_')
}

/// How many of `fs` belong to namespace `ns`.
pub open spec fn count_in_ns(fs: Seq<FunctionInfo>, ns: Seq<char>) -> nat
    decreases fs.len(),
{
    if fs.len() == 0 {
        0
    } else {
        count_in_ns(fs.drop_last(), ns) + if fs.last().namespace@ == ns {
            1nat
        } else {
            0nat
        }
    }
}

/// The outcome of resolving function `name` from namespace `cur`: the
/// current namespace first, then the default one, then the only namespace
/// that has it; two candidates at one of these steps make the call ambiguous.
pub open spec fn resolve_spec(
    fs: Option<Seq<FunctionInfo>>,
    name: Seq<char>,
    cur: Seq<char>,
    dflt: Seq<char>,
) -> Result<Option<Seq<char>>, NamespaceErrorView> {
    match fs {
        None => Ok(None),
        Some(fs) => if count_in_ns(fs, cur) == 1 {
            Ok(Some(cur))
        } else if count_in_ns(fs, cur) > 1 {
            Err(NamespaceErrorView::AmbiguousCall(name))
        } else if count_in_ns(fs, dflt) == 1 {
            Ok(Some(dflt))
        } else if count_in_ns(fs, dflt) > 1 {
            Err(NamespaceErrorView::AmbiguousCall(name))
        } else if fs.len() == 1 {
            Ok(Some(fs[0].namespace@))
        } else if fs.len() > 1 {
            Err(NamespaceErrorView::AmbiguousCall(name))
        } else {
            Ok(None)
        },
    }
}

/// The functions registered under `name`.
pub open spec fn funcs_named(e: Seq<(String, Vec<FunctionInfo>)>, name: Seq<char>) -> Option<
    Seq<FunctionInfo>,
> {
    match lookup(e, name) {
        Some(v) => Some(v@),
        None => None,
    }
}

/// The result of a resolution, by content.
pub open spec fn resolve_view(r: Result<Option<String>, NamespaceError>) -> Result<
    Option<Seq<char>>,
    NamespaceErrorView,
> {
    match r {
        Ok(o) => Ok(o.deep_view()),
        Err(e) => Err(e@),
    }
}

fn count_functions_in(fs: &Vec<FunctionInfo>, ns: &str) -> (n: usize)
    ensures
        n == count_in_ns(fs@, ns@),
{
    let mut n: usize = 0;
    let mut i: usize = 0;
    while i < fs.len()
        invariant
            0 <= i <= fs.len(),
            n == count_in_ns(fs@.subrange(0, i as int), ns@),
            n <= i,
        decreases fs.len() - i,
    {
        assert(fs@.subrange(0, i + 1).drop_last() =~= fs@.subrange(0, i as int));
        if str_eq(fs[i].namespace.as_str(), ns) {
            n = n + 1;
        }
        i = i + 1;
    }
    assert(fs@.subrange(0, fs.len() as int) =~= fs@);
    n
}

/// The functions `m2` are `m` after `f` was registered under its name.
pub open spec fn function_registered(
    m: StrMap<Vec<FunctionInfo>>,
    m2: StrMap<Vec<FunctionInfo>>,
    f: FunctionInfo,
) -> bool {
    &&& forall|q: Seq<char>|
        #![trigger items_of(m2.entries@, q)]
        items_of(m2.entries@, q) == if q == f.name@ {
            items_of(m.entries@, f.name@).push(f)
        } else {
            items_of(m.entries@, q)
        }
    &&& forall|q: Seq<char>|
        #![trigger m2.spec_get(q)]
        (m2.spec_get(q) is Some) == (q == f.name@ || m.spec_get(q) is Some)
}

impl NamespaceRegistry {
    /// Well-formedness: every class name maps to at least one class, each
    /// of that name.
    pub open spec fn wf(&self) -> bool {
        classes_wf(self.classes.entries@)
    }

    /// Is `name` reserved for the system (all ASCII capitals or `_`)?
    pub fn is_reserved_namespace(name: &str) -> (b: bool)
        ensures
            b == is_reserved(name@),
    {
        let v = chars_of(name);
        let mut i: usize = 0;
        while i < v.len()
            invariant
                0 <= i <= v.len(),
                v@ == name@,
                forall|j: int| 0 <= j < i ==> ('A' <= #[trigger] v@[j] <= 'Z' || v@[j] == '_'),
            decreases v.len() - i,
        {
            if !(('A' <= v[i] && v[i] <= 'Z') || v[i] == '_') {
                return false;
            }
            i = i + 1;
        }
        true
    }

    /// Register the system namespaces `RUST` and `HUST`, each made of the
    /// single file `[system]`.
    pub fn register_system_namespaces(&mut self)
        ensures
            forall|q: Seq<char>|
                #![trigger final(self).spaces.spec_get(q)]
                q != "RUST"@ && q != "HUST"@ ==> final(self).spaces.spec_get(q) == old(
                    self,
                ).spaces.spec_get(q),
            final(self).spaces.spec_get("RUST"@) matches Some(v) && strs(v@) == seq![
                "[system]"@,
            ],
            final(self).spaces.spec_get("HUST"@) matches Some(v) && strs(v@) == seq![
                "[system]"@,
            ],
            final(self).functions == old(self).functions,
            final(self).classes == old(self).classes,
            final(self).default_space == old(self).default_space,
            final(self).warnings == old(self).warnings,
            final(self).use_statements == old(self).use_statements,
    {
        let mut v1: Vec<String> = Vec::new();
        v1.push(String::from_str("[system]"));
        assert(strs(v1@) =~= seq!["[system]"@]);
        self.spaces.insert(String::from_str("RUST"), v1);
        let mut v2: Vec<String> = Vec::new();
        v2.push(String::from_str("[system]"));
        assert(strs(v2@) =~= seq!["[system]"@]);
        self.spaces.insert(String::from_str("HUST"), v2);
        proof {
            reveal_strlit("RUST");
            reveal_strlit("HUST");
            assert("RUST"@ != "HUST"@) by {
                assert("RUST"@[0] != "HUST"@[0]);
            }
        }
    }

    /// A registry with the default namespace `default` and the system
    /// namespaces registered, and nothing else.
    pub fn new() -> (r: Self)
        ensures
            r.default_space@ == "default"@,
            forall|q: Seq<char>|
                #![trigger r.spaces.spec_get(q)]
                q != "RUST"@ && q != "HUST"@ ==> r.spaces.spec_get(q) is None,
            r.spaces.spec_get("RUST"@) matches Some(v) && strs(v@) == seq!["[system]"@],
            r.spaces.spec_get("HUST"@) matches Some(v) && strs(v@) == seq!["[system]"@],
            r.functions.entries@.len() == 0,
            r.classes.entries@.len() == 0,
            r.warnings@.len() == 0,
            r.use_statements.entries@.len() == 0,
            r.wf(),
    {
        let mut registry = NamespaceRegistry {
            spaces: StrMap::new(),
            functions: StrMap::new(),
            classes: StrMap::new(),
            default_space: String::from_str("default"),
            warnings: Vec::new(),
            use_statements: StrMap::new(),
        };
        registry.register_system_namespaces();
        proof {
            assert forall|q: Seq<char>| #[trigger] lookup(registry.classes.entries@, q) is None by {
                assert(registry.classes.entries@.len() == 0);
            }
        }
        registry
    }

    /// Register a function under its name.
    pub fn register_function(&mut self, func: FunctionInfo)
        ensures
            function_registered(old(self).functions, final(self).functions, func),
            final(self).spaces == old(self).spaces,
            final(self).classes == old(self).classes,
            final(self).default_space == old(self).default_space,
            final(self).warnings == old(self).warnings,
            final(self).use_statements == old(self).use_statements,
    {
        let key = func.name.clone();
        self.functions.push_to(key, func);
    }

    /// Resolve the namespace of function `name` called from `current_ns`.
    pub fn resolve_function(&self, name: &str, current_ns: &str) -> (r: Result<
        Option<String>,
        NamespaceError,
    >)
        ensures
            resolve_view(r) == resolve_spec(
                funcs_named(self.functions.entries@, name@),
                name@,
                current_ns@,
                self.default_space@,
            ),
    {
        match self.functions.get(name) {
            None => Ok(None),
            Some(funcs) => {
                let in_current = count_functions_in(funcs, current_ns);
                if in_current == 1 {
                    return Ok(Some(String::from_str(current_ns)));
                } else if in_current > 1 {
                    return Err(NamespaceError::AmbiguousCall(String::from_str(name)));
                }
                let in_default = count_functions_in(funcs, self.default_space.as_str());
                if in_default == 1 {
                    return Ok(Some(self.default_space.clone()));
                } else if in_default > 1 {
                    return Err(NamespaceError::AmbiguousCall(String::from_str(name)));
                }
                if funcs.len() == 1 {
                    return Ok(Some(funcs[0].namespace.clone()));
                } else if funcs.len() > 1 {
                    return Err(NamespaceError::AmbiguousCall(String::from_str(name)));
                }
                Ok(None)
            },
        }
    }
}

/// Position of the first class of namespace `ns` in `cs`.
pub open spec fn first_in_ns(cs: Seq<ClassInfo>, ns: Seq<char>) -> Option<int>
    decreases cs.len(),
{
    if cs.len() == 0 {
        None
    } else if cs[0].namespace@ == ns {
        Some(0)
    } else {
        match first_in_ns(cs.drop_first(), ns) {
            Some(i) => Some(i + 1),
            None => None,
        }
    }
}

pub proof fn lemma_first_in_ns(cs: Seq<ClassInfo>, ns: Seq<char>)
    ensures
        match first_in_ns(cs, ns) {
            Some(i) => 0 <= i < cs.len() && cs[i].namespace@ == ns && forall|j: int|
                0 <= j < i ==> cs[j].namespace@ != ns,
            None => forall|j: int| 0 <= j < cs.len() ==> cs[j].namespace@ != ns,
        },
    decreases cs.len(),
{
    if cs.len() > 0 && cs[0].namespace@ != ns {
        lemma_first_in_ns(cs.drop_first(), ns);
        assert forall|j: int| 0 < j < cs.len() implies cs[j] == cs.drop_first()[j - 1] by {}
    }
}

proof fn lemma_first_in_ns_is(cs: Seq<ClassInfo>, ns: Seq<char>, i: int)
    requires
        0 <= i <= cs.len(),
        forall|j: int| 0 <= j < i ==> cs[j].namespace@ != ns,
        i == cs.len() || cs[i].namespace@ == ns,
    ensures
        first_in_ns(cs, ns) == if i == cs.len() {
            None::<int>
        } else {
            Some(i)
        },
{
    lemma_first_in_ns(cs, ns);
    match first_in_ns(cs, ns) {
        Some(m) => {
            if m < i {
                assert(cs[m].namespace@ != ns);
            }
            if i < m && i < cs.len() {
                assert(cs[i].namespace@ != ns);
            }
        },
        None => {
            if i < cs.len() {
                assert(cs[i].namespace@ != ns);
            }
        },
    }
}

fn find_class_in_ns(cs: &Vec<ClassInfo>, ns: &str) -> (r: Option<usize>)
    ensures
        match r {
            Some(i) => first_in_ns(cs@, ns@) == Some(i as int) && i < cs@.len(),
            None => first_in_ns(cs@, ns@) is None,
        },
{
    let mut i: usize = 0;
    while i < cs.len()
        invariant
            0 <= i <= cs.len(),
            forall|j: int| 0 <= j < i ==> cs@[j].namespace@ != ns@,
        decreases cs.len() - i,
    {
        if str_eq(cs[i].namespace.as_str(), ns) {
            proof {
                lemma_first_in_ns_is(cs@, ns@, i as int);
            }
            return Some(i);
        }
        i = i + 1;
    }
    proof {
        lemma_first_in_ns_is(cs@, ns@, i as int);
    }
    None
}

/// The warning recorded when a second class of one name joins a namespace.
pub open spec fn dup_class_warning(name: Seq<char>, ns: Seq<char>) -> Seq<char> {
    "Class '"@ + name + "' already exists in namespace '"@ + ns
        + "' - distributed implementation"@
}

/// The warning recorded when a parent class moves to its child's namespace.
pub open spec fn inherit_warning(parent: Seq<char>, child: Seq<char>, ns: Seq<char>) -> Seq<
    char,
> {
    "Class '"@ + parent + "' inherited by '"@ + child + "' - moved to namespace '"@ + ns
        + "' (过继)"@
}

/// `c2` is `c` with `inner -> path` added to its nested classes.
pub open spec fn with_nested(c: ClassInfo, c2: ClassInfo, inner: Seq<char>, path: Seq<char>) -> bool {
    &&& c2.name == c.name
    &&& c2.namespace == c.namespace
    &&& c2.is_public == c.is_public
    &&& c2.parent == c.parent
    &&& c2.methods.entries@ == c.methods.entries@
    &&& c2.nested.spec_get(inner) matches Some(p) && p@ == path
    &&& forall|q: Seq<char>|
        #![trigger c2.nested.spec_get(q)]
        q != inner ==> c2.nested.spec_get(q) == c.nested.spec_get(q)
}

/// `c2` is `c` with method `m` stored under its name.
pub open spec fn with_method(c: ClassInfo, c2: ClassInfo, m: MethodInfo) -> bool {
    &&& c2.name == c.name
    &&& c2.namespace == c.namespace
    &&& c2.is_public == c.is_public
    &&& c2.parent == c.parent
    &&& c2.nested.entries@ == c.nested.entries@
    &&& c2.methods.spec_get(m.name@) == Some(m)
    &&& forall|q: Seq<char>|
        #![trigger c2.methods.spec_get(q)]
        q != m.name@ ==> c2.methods.spec_get(q) == c.methods.spec_get(q)
}

/// `a` and `b` hold the same content.
pub open spec fn same_class(a: ClassInfo, b: ClassInfo) -> bool {
    &&& a.name == b.name
    &&& a.namespace == b.namespace
    &&& a.is_public == b.is_public
    &&& a.parent == b.parent
    &&& a.nested.entries@ == b.nested.entries@
    &&& a.methods.entries@ == b.methods.entries@
}

/// A new public, parentless class made only to hold a nested class or a
/// method registered before the class itself.
pub open spec fn is_placeholder(c: ClassInfo, name: Seq<char>, ns: Seq<char>) -> bool {
    &&& c.name@ == name
    &&& c.namespace@ == ns
    &&& c.is_public
    &&& c.parent is None
}

/// Some class of `cs` belongs to namespace `ns`.
pub open spec fn has_in_ns(cs: Seq<ClassInfo>, ns: Seq<char>) -> bool {
    exists|i: int| 0 <= i < cs.len() && cs[i].namespace@ == ns
}

/// The classes of `cs` outside namespace `ns`, in order.
pub open spec fn outside_ns(cs: Seq<ClassInfo>, ns: Seq<char>) -> Seq<ClassInfo>
    decreases cs.len(),
{
    if cs.len() == 0 {
        Seq::empty()
    } else if cs.last().namespace@ != ns {
        outside_ns(cs.drop_last(), ns).push(cs.last())
    } else {
        outside_ns(cs.drop_last(), ns)
    }
}

/// Can `method` of class `class` in namespace `ns` be called from
/// `current` (a class name, if the caller is in one)?  Unknown classes and
/// methods count as accessible.
pub open spec fn accessible_spec(
    cs: Option<Seq<ClassInfo>>,
    class: Seq<char>,
    method: Seq<char>,
    ns: Seq<char>,
    current: Option<Seq<char>>,
) -> bool {
    match cs {
        Some(cs) => match first_in_ns(cs, ns) {
            Some(i) => if current == Some(class) {
                true
            } else {
                match cs[i].methods.spec_get(method) {
                    Some(m) => m.is_public,
                    None => true,
                }
            },
            None => true,
        },
        None => true,
    }
}

/// The classes registered under `name`.
pub open spec fn classes_named(e: Seq<(String, Vec<ClassInfo>)>, name: Seq<char>) -> Option<
    Seq<ClassInfo>,
> {
    match lookup(e, name) {
        Some(v) => Some(v@),
        None => None,
    }
}

/// The position of the first `.` in `s`, if any.
pub open spec fn first_dot(s: Seq<char>) -> Option<int> {
    if idx_of(s, '.') < s.len() {
        Some(idx_of(s, '.'))
    } else {
        None
    }
}

/// `Outer.Inner...` resolved in namespace `ns`: the full path recorded for
/// `Inner...` in the first class `Outer` of `ns`.
pub open spec fn resolve_nested_spec(
    e: Seq<(String, Vec<ClassInfo>)>,
    path: Seq<char>,
    ns: Seq<char>,
) -> Option<Seq<char>> {
    match first_dot(path) {
        None => None,
        Some(d) => {
            let outer = path.subrange(0, d);
            let inner = path.subrange(d + 1, path.len() as int);
            match classes_named(e, outer) {
                Some(cs) => match first_in_ns(cs, ns) {
                    Some(i) => match cs[i].nested.spec_get(inner) {
                        Some(p) => Some(p@),
                        None => None,
                    },
                    None => None,
                },
                None => None,
            }
        },
    }
}

impl MethodInfo {
    /// A field-by-field copy.
    pub fn copy(&self) -> (r: Self)
        ensures
            r == *self,
    {
        MethodInfo {
            name: self.name.clone(),
            is_public: self.is_public,
            is_static: self.is_static,
            ret_type: self.ret_type.clone(),
            params: self.params.clone(),
        }
    }
}

/// An entry-by-entry copy of a table of strings.
pub fn copy_str_table(m: &StrMap<String>) -> (r: StrMap<String>)
    ensures
        r.entries@ == m.entries@,
{
    let mut v: Vec<(String, String)> = Vec::new();
    let mut i: usize = 0;
    while i < m.entries.len()
        invariant
            0 <= i <= m.entries.len(),
            v@ == m.entries@.subrange(0, i as int),
        decreases m.entries.len() - i,
    {
        v.push((m.entries[i].0.clone(), m.entries[i].1.clone()));
        assert(v@ =~= m.entries@.subrange(0, i + 1));
        i = i + 1;
    }
    assert(v@ =~= m.entries@);
    StrMap { entries: v }
}

/// An entry-by-entry copy of a table of methods.
pub fn copy_method_table(m: &StrMap<MethodInfo>) -> (r: StrMap<MethodInfo>)
    ensures
        r.entries@ == m.entries@,
{
    let mut v: Vec<(String, MethodInfo)> = Vec::new();
    let mut i: usize = 0;
    while i < m.entries.len()
        invariant
            0 <= i <= m.entries.len(),
            v@ == m.entries@.subrange(0, i as int),
        decreases m.entries.len() - i,
    {
        v.push((m.entries[i].0.clone(), m.entries[i].1.copy()));
        assert(v@ =~= m.entries@.subrange(0, i + 1));
        i = i + 1;
    }
    assert(v@ =~= m.entries@);
    StrMap { entries: v }
}

impl ClassInfo {
    /// A field-by-field copy.
    pub fn copy(&self) -> (r: Self)
        ensures
            same_class(r, *self),
    {
        let parent = match &self.parent {
            Some(p) => Some(p.clone()),
            None => None,
        };
        ClassInfo {
            name: self.name.clone(),
            namespace: self.namespace.clone(),
            is_public: self.is_public,
            parent,
            nested: copy_str_table(&self.nested),
            methods: copy_method_table(&self.methods),
        }
    }
}

/// Lookups after entry `idx` of `e` got new values under the same key.
proof fn lemma_entry_replaced<T>(
    e: Seq<(String, Vec<T>)>,
    e2: Seq<(String, Vec<T>)>,
    idx: int,
    q: Seq<char>,
)
    requires
        0 <= idx < e.len(),
        e2.len() == e.len(),
        e2[idx].0 == e[idx].0,
        forall|k: int| 0 <= k < e.len() && k != idx ==> e2[k] == e[k],
    ensures
        lookup(e2, q) == if index_in(e, q) == Some(idx) {
            Some(e2[idx].1)
        } else {
            lookup(e, q)
        },
        (lookup(e2, q) is Some) == (lookup(e, q) is Some),
{
    assert(e2 =~= e.update(idx, e2[idx]));
    crate::table::lemma_lookup_update(e, idx, e2[idx], q);
    crate::table::lemma_index_in(e, q);
}

impl NamespaceRegistry {
    /// Register a class under its name; warn when its namespace already
    /// has a class of that name.
    pub fn register_class(&mut self, cls: ClassInfo)
        ensures
            classes_named(final(self).classes.entries@, cls.name@) == Some(
                items_of(old(self).classes.entries@, cls.name@).push(cls),
            ),
            forall|q: Seq<char>|
                #![trigger final(self).classes.spec_get(q)]
                q != cls.name@ ==> final(self).classes.spec_get(q) == old(self).classes.spec_get(q),
            strs(final(self).warnings@) == strs(old(self).warnings@) + if has_in_ns(
                items_of(old(self).classes.entries@, cls.name@),
                cls.namespace@,
            ) {
                seq![dup_class_warning(cls.name@, cls.namespace@)]
            } else {
                Seq::<Seq<char>>::empty()
            },
            final(self).spaces == old(self).spaces,
            final(self).functions == old(self).functions,
            final(self).default_space == old(self).default_space,
            final(self).use_statements == old(self).use_statements,
            old(self).wf() ==> final(self).wf(),
    {
        let ghost old_warnings = strs(self.warnings@);
        let ghost e = self.classes.entries@;
        let dup = match self.classes.get(cls.name.as_str()) {
            Some(existing) => {
                let f = find_class_in_ns(existing, cls.namespace.as_str());
                proof {
                    lemma_first_in_ns(existing@, cls.namespace@);
                }
                f.is_some()
            },
            None => false,
        };
        assert(dup == has_in_ns(items_of(e, cls.name@), cls.namespace@)) by {
            lemma_first_in_ns(items_of(e, cls.name@), cls.namespace@);
        }
        if dup {
            let mut w = String::from_str("Class '");
            w.append(cls.name.as_str());
            w.append("' already exists in namespace '");
            w.append(cls.namespace.as_str());
            w.append("' - distributed implementation");
            self.warnings.push(w);
            proof {
                assert(strs(self.warnings@) =~= old_warnings + seq![
                    dup_class_warning(cls.name@, cls.namespace@),
                ]);
            }
        } else {
            assert(strs(self.warnings@) =~= old_warnings + Seq::<Seq<char>>::empty());
        }
        let key = cls.name.clone();
        let ghost name = cls.name@;
        let ghost c = cls;
        self.classes.push_to(key, cls);
        proof {
            assert(items_of(self.classes.entries@, name) == items_of(e, name).push(c));
            assert(self.classes.spec_get(name) is Some);
            if old(self).wf() {
                assert forall|q: Seq<char>| #[trigger] class_entry_ok(lookup(self.classes.entries@, q), q) by {
                    if q != name {
                        assert(self.classes.spec_get(q) == old(self).classes.spec_get(q));
                        assert(lookup(e, q) == lookup(self.classes.entries@, q));
                    } else {
                        let v = lookup(self.classes.entries@, q).unwrap();
                        assert(v@ == items_of(e, name).push(c));
                        if let Some(w) = lookup(e, name) {
                            assert(items_of(e, name) == w@);
                            assert(class_entry_ok(lookup(e, name), name));
                        }
                        assert forall|j: int| 0 <= j < v@.len() implies (#[trigger] v@[j]).name@ == q by {
                            if j < v@.len() - 1 {
                                assert(v@[j] == items_of(e, name)[j]);
                            }
                        }
                    }
                }
            }
        }
    }
}

/// Class `class` of namespace `ns` exists, as the `j`-th class of its name.
pub open spec fn class_slot(e: Seq<(String, Vec<ClassInfo>)>, class: Seq<char>, ns: Seq<char>) -> Option<int> {
    match classes_named(e, class) {
        Some(cs) => first_in_ns(cs, ns),
        None => None,
    }
}

/// The classes `e2` are `e` after nested class `inner` (full path `full`)
/// of class `outer` in namespace `ns` was recorded.
pub open spec fn nested_registered(
    e: Seq<(String, Vec<ClassInfo>)>,
    e2: Seq<(String, Vec<ClassInfo>)>,
    outer: Seq<char>,
    inner: Seq<char>,
    full: Seq<char>,
    ns: Seq<char>,
) -> bool {
    &&& (class_slot(e, outer, ns) matches Some(j) ==> {
                let cs = items_of(e, outer);
                &&& classes_named(e2, outer) matches Some(cs2)
                &&& cs2.len() == cs.len()
                &&& with_nested(cs[j], cs2[j], inner, full)
                &&& forall|k: int| 0 <= k < cs.len() && k != j ==> cs2[k] == cs[k]
            })
    &&& (class_slot(e, outer, ns) is None ==> {
                let cs = items_of(e, outer);
                &&& classes_named(e2, outer) matches Some(cs2)
                &&& cs2.len() == cs.len() + 1
                &&& cs2.drop_last() =~= cs
                &&& is_placeholder(cs2.last(), outer, ns)
                &&& cs2.last().methods.entries@.len() == 0
                &&& cs2.last().nested.spec_get(inner) matches Some(p) && p@ == full
                &&& forall|q: Seq<char>|
                    #![trigger cs2.last().nested.spec_get(q)]
                    q != inner ==> cs2.last().nested.spec_get(q) is None
            })
}

/// The classes `e2` are `e` after method `m` of class `class` in
/// namespace `ns` was recorded.
pub open spec fn method_registered(
    e: Seq<(String, Vec<ClassInfo>)>,
    e2: Seq<(String, Vec<ClassInfo>)>,
    class: Seq<char>,
    m: MethodInfo,
    ns: Seq<char>,
) -> bool {
    &&& (class_slot(e, class, ns) matches Some(j) ==> {
                let cs = items_of(e, class);
                &&& classes_named(e2, class) matches Some(cs2)
                &&& cs2.len() == cs.len()
                &&& with_method(cs[j], cs2[j], m)
                &&& forall|k: int| 0 <= k < cs.len() && k != j ==> cs2[k] == cs[k]
            })
    &&& (class_slot(e, class, ns) is None ==> {
                let cs = items_of(e, class);
                &&& classes_named(e2, class) matches Some(cs2)
                &&& cs2.len() == cs.len() + 1
                &&& cs2.drop_last() =~= cs
                &&& is_placeholder(cs2.last(), class, ns)
                &&& cs2.last().nested.entries@.len() == 0
                &&& cs2.last().methods.spec_get(m.name@) == Some(m)
                &&& forall|q: Seq<char>|
                    #![trigger cs2.last().methods.spec_get(q)]
                    q != m.name@ ==> cs2.last().methods.spec_get(q) is None
            })
}

impl NamespaceRegistry {
    /// Record nested class `inner` (full path `full_path`) of class `outer`
    /// in namespace `namespace`; an unknown outer class is registered as a
    /// placeholder holding just that nested class.
    pub fn register_nested_class(&mut self, outer: &str, inner: &str, full_path: &str, namespace: &str)
        ensures
            nested_registered(
                old(self).classes.entries@,
                final(self).classes.entries@,
                outer@,
                inner@,
                full_path@,
                namespace@,
            ),
            forall|q: Seq<char>|
                #![trigger final(self).classes.spec_get(q)]
                q != outer@ ==> final(self).classes.spec_get(q) == old(self).classes.spec_get(q),
            strs(final(self).warnings@) == strs(old(self).warnings@),
            old(self).wf() ==> final(self).wf(),
            final(self).spaces == old(self).spaces,
            final(self).functions == old(self).functions,
            final(self).default_space == old(self).default_space,
            final(self).use_statements == old(self).use_statements,
    {
        let ghost e = self.classes.entries@;
        if let Some(idx) = self.classes.index_of(outer) {
            proof {
                crate::table::lemma_index_in(e, outer@);
            }
            if let Some(j) = find_class_in_ns(&self.classes.entries[idx].1, namespace) {
                let mut pair = self.classes.entries.remove(idx);
                let ghost v0 = pair.1@;
                let mut c = pair.1.remove(j);
                let ghost c0 = c;
                c.nested.insert(String::from_str(inner), String::from_str(full_path));
                let ghost c1 = c;
                pair.1.insert(j, c);
                self.classes.entries.insert(idx, pair);
                let ghost e2 = self.classes.entries@;
                proof {
                    assert(e2[idx as int].1@ =~= v0.update(j as int, c1));
                    assert forall|k: int| 0 <= k < e.len() && k != idx implies e2[k] == e[k] by {}
                    assert forall|q: Seq<char>| #[trigger]
                        self.classes.spec_get(q) == if index_in(e, q) == Some(idx as int) {
                            Some(e2[idx as int].1)
                        } else {
                            lookup(e, q)
                        } by {
                        lemma_entry_replaced(e, e2, idx as int, q);
                    }
                    assert forall|q: Seq<char>| q != outer@ implies index_in(e, q) != Some(
                        idx as int,
                    ) by {
                        crate::table::lemma_index_in(e, q);
                    }
                    assert(index_in(e, outer@) == Some(idx as int));
                    assert(v0 == e[idx as int].1@);
                    assert(classes_named(e, outer@) == Some(v0));
                    assert(items_of(e, outer@) == v0);
                    assert(with_nested(v0[j as int], c1, inner@, full_path@));
                    assert(self.classes.spec_get(outer@) == Some(e2[idx as int].1));
                    assert(classes_named(self.classes.entries@, outer@) == Some(v0.update(j as int, c1)));
                    if old(self).wf() {
                        assert forall|q: Seq<char>| #[trigger] class_entry_ok(lookup(e2, q), q) by {
                            assert(class_entry_ok(lookup(e, q), q));
                            lemma_entry_replaced(e, e2, idx as int, q);
                            if index_in(e, q) == Some(idx as int) {
                                crate::table::lemma_index_in(e, q);
                                assert(lookup(e, q) == Some(e[idx as int].1));
                                assert(q == outer@);
                                assert forall|k: int| 0 <= k < v0.len() implies (#[trigger] e2[idx as int].1@[k]).name@ == q by {
                                    assert(v0[k].name@ == q);
                                }
                            }
                        }
                    }
                }
                return ;
            }
        }
        let mut nested: StrMap<String> = StrMap::new();
        nested.insert(String::from_str(inner), String::from_str(full_path));
        let placeholder = ClassInfo {
            name: String::from_str(outer),
            namespace: String::from_str(namespace),
            is_public: true,
            parent: None,
            nested,
            methods: StrMap::new(),
        };
        proof {
            if let Some(cs) = classes_named(e, outer@) {
                lemma_first_in_ns(cs, namespace@);
            }
            assert(!has_in_ns(items_of(e, outer@), namespace@));
        }
        self.register_class(placeholder);
        proof {
            assert(strs(self.warnings@) =~= strs(old(self).warnings@));
            assert(class_slot(e, outer@, namespace@) is None);
        }
    }

    /// Record `method` in class `class_name` of namespace `namespace`; an
    /// unknown class is registered as a placeholder holding just that method.
    pub fn register_method(&mut self, class_name: &str, method: MethodInfo, namespace: &str)
        ensures
            method_registered(
                old(self).classes.entries@,
                final(self).classes.entries@,
                class_name@,
                method,
                namespace@,
            ),
            forall|q: Seq<char>|
                #![trigger final(self).classes.spec_get(q)]
                q != class_name@ ==> final(self).classes.spec_get(q) == old(self).classes.spec_get(
                    q,
                ),
            strs(final(self).warnings@) == strs(old(self).warnings@),
            old(self).wf() ==> final(self).wf(),
            final(self).spaces == old(self).spaces,
            final(self).functions == old(self).functions,
            final(self).default_space == old(self).default_space,
            final(self).use_statements == old(self).use_statements,
    {
        let ghost e = self.classes.entries@;
        if let Some(idx) = self.classes.index_of(class_name) {
            proof {
                crate::table::lemma_index_in(e, class_name@);
            }
            if let Some(j) = find_class_in_ns(&self.classes.entries[idx].1, namespace) {
                let mut pair = self.classes.entries.remove(idx);
                let ghost v0 = pair.1@;
                let mut c = pair.1.remove(j);
                let key = method.name.clone();
                c.methods.insert(key, method);
                let ghost c1 = c;
                pair.1.insert(j, c);
                self.classes.entries.insert(idx, pair);
                let ghost e2 = self.classes.entries@;
                proof {
                    assert(e2[idx as int].1@ =~= v0.update(j as int, c1));
                    assert forall|k: int| 0 <= k < e.len() && k != idx implies e2[k] == e[k] by {}
                    assert forall|q: Seq<char>| #[trigger]
                        self.classes.spec_get(q) == if index_in(e, q) == Some(idx as int) {
                            Some(e2[idx as int].1)
                        } else {
                            lookup(e, q)
                        } by {
                        lemma_entry_replaced(e, e2, idx as int, q);
                    }
                    assert forall|q: Seq<char>| q != class_name@ implies index_in(e, q) != Some(
                        idx as int,
                    ) by {
                        crate::table::lemma_index_in(e, q);
                    }
                    assert(index_in(e, class_name@) == Some(idx as int));
                    assert(v0 == e[idx as int].1@);
                    assert(classes_named(e, class_name@) == Some(v0));
                    assert(items_of(e, class_name@) == v0);
                    assert(with_method(v0[j as int], c1, method));
                    assert(self.classes.spec_get(class_name@) == Some(e2[idx as int].1));
                    assert(classes_named(self.classes.entries@, class_name@) == Some(v0.update(j as int, c1)));
                    if old(self).wf() {
                        assert forall|q: Seq<char>| #[trigger] class_entry_ok(lookup(e2, q), q) by {
                            assert(class_entry_ok(lookup(e, q), q));
                            lemma_entry_replaced(e, e2, idx as int, q);
                            if index_in(e, q) == Some(idx as int) {
                                crate::table::lemma_index_in(e, q);
                                assert(lookup(e, q) == Some(e[idx as int].1));
                                assert(q == class_name@);
                                assert forall|k: int| 0 <= k < v0.len() implies (#[trigger] e2[idx as int].1@[k]).name@ == q by {
                                    assert(v0[k].name@ == q);
                                }
                            }
                        }
                    }
                }
                return ;
            }
        }
        let mut methods: StrMap<MethodInfo> = StrMap::new();
        let key = method.name.clone();
        methods.insert(key, method);
        let placeholder = ClassInfo {
            name: String::from_str(class_name),
            namespace: String::from_str(namespace),
            is_public: true,
            parent: None,
            nested: StrMap::new(),
            methods,
        };
        proof {
            if let Some(cs) = classes_named(e, class_name@) {
                lemma_first_in_ns(cs, namespace@);
            }
            assert(!has_in_ns(items_of(e, class_name@), namespace@));
        }
        self.register_class(placeholder);
        proof {
            assert(strs(self.warnings@) =~= strs(old(self).warnings@));
            assert(class_slot(e, class_name@, namespace@) is None);
        }
    }

    /// Is `method_name` of class `class_name` (namespace `namespace`)
    /// callable from `current_class`?  Within the class, always; elsewhere
    /// when the method is public; unknown classes and methods are accessible.
    pub fn is_method_accessible(
        &self,
        class_name: &str,
        method_name: &str,
        namespace: &str,
        current_class: Option<&str>,
    ) -> (b: bool)
        ensures
            b == accessible_spec(
                classes_named(self.classes.entries@, class_name@),
                class_name@,
                method_name@,
                namespace@,
                match current_class {
                    Some(c) => Some(c@),
                    None => None,
                },
            ),
    {
        if let Some(classes) = self.classes.get(class_name) {
            if let Some(j) = find_class_in_ns(classes, namespace) {
                let same = match current_class {
                    Some(c) => str_eq(c, class_name),
                    None => false,
                };
                if same {
                    return true;
                }
                if let Some(m) = classes[j].methods.get(method_name) {
                    return m.is_public;
                }
                return true;
            }
        }
        true
    }

    /// Resolve `Outer.Inner` to the full path recorded for the nested class.
    pub fn resolve_nested_class(&self, path: &str, namespace: &str) -> (r: Option<String>)
        ensures
            r.deep_view() == resolve_nested_spec(self.classes.entries@, path@, namespace@),
    {
        let v = chars_of(path);
        let mut d: usize = 0;
        while d < v.len() && v[d] != '.'
            invariant
                0 <= d <= v.len(),
                v@ == path@,
                forall|k: int| 0 <= k < d ==> v@[k] != '.',
            decreases v.len() - d,
        {
            d = d + 1;
        }
        proof {
            crate::text::lemma_idx_of(v@, '.', d as int);
        }
        if d == v.len() {
            return None;
        }
        let outer = string_of_range(&v, 0, d);
        let inner = string_of_range(&v, d + 1, v.len());
        if let Some(classes) = self.classes.get(outer.as_str()) {
            if let Some(j) = find_class_in_ns(classes, namespace) {
                return match classes[j].nested.get(inner.as_str()) {
                    Some(p) => Some(p.clone()),
                    None => None,
                };
            }
        }
        None
    }
}

/// Every class name maps to at least one class, each of that name.
pub open spec fn classes_wf(e: Seq<(String, Vec<ClassInfo>)>) -> bool {
    forall|q: Seq<char>| #![trigger lookup(e, q)] class_entry_ok(lookup(e, q), q)
}

/// The classes stored under name `q` are at least one, each named `q`.
pub open spec fn class_entry_ok(v: Option<Vec<ClassInfo>>, q: Seq<char>) -> bool {
    match v {
        Some(v) => v@.len() > 0 && forall|j: int| 0 <= j < v@.len() ==> (#[trigger] v@[j]).name@ == q,
        None => true,
    }
}

/// `b` is `a` moved to namespace `ns`.
pub open spec fn moved_to(a: ClassInfo, b: ClassInfo, ns: Seq<char>) -> bool {
    &&& b.name == a.name
    &&& b.namespace@ == ns
    &&& b.is_public == a.is_public
    &&& b.parent == a.parent
    &&& b.nested.entries@ == a.nested.entries@
    &&& b.methods.entries@ == a.methods.entries@
}

fn keep_outside_ns(cs: Vec<ClassInfo>, ns: &str) -> (r: Vec<ClassInfo>)
    ensures
        r@ == outside_ns(cs@, ns@),
{
    let ghost orig = cs@;
    let mut rest = cs;
    let mut r: Vec<ClassInfo> = Vec::new();
    let ghost mut k: int = 0;
    while rest.len() > 0
        invariant
            0 <= k <= orig.len(),
            rest@ == orig.subrange(k, orig.len() as int),
            r@ == outside_ns(orig.subrange(0, k), ns@),
        decreases rest.len(),
    {
        let c = rest.remove(0);
        proof {
            assert(orig.subrange(0, k + 1).drop_last() =~= orig.subrange(0, k));
            assert(c == orig[k]);
        }
        if !str_eq(c.namespace.as_str(), ns) {
            r.push(c);
        }
        proof {
            k = k + 1;
            assert(rest@ =~= orig.subrange(k, orig.len() as int));
        }
    }
    assert(orig.subrange(0, k) =~= orig);
    r
}

/// The namespace of the first use statement of `uses` that imports `name`
/// (the whole namespace, or `name` itself) from a namespace that holds a
/// function `name`.
pub open spec fn import_match(
    uses: Seq<UseStmt>,
    name: Seq<char>,
    fs: Option<Seq<FunctionInfo>>,
) -> Option<Seq<char>>
    decreases uses.len(),
{
    if uses.len() == 0 {
        None
    } else {
        let u = uses[0];
        let m = match u.item {
            None => true,
            Some(it) => it@ == name,
        };
        if m && fs is Some && count_in_ns(fs.unwrap(), u.namespace@) > 0 {
            Some(u.namespace@)
        } else {
            import_match(uses.drop_first(), name, fs)
        }
    }
}

/// The namespace that the use statements of `file` give function `name`.
pub open spec fn import_hit(reg: NamespaceRegistry, name: Seq<char>, file: Seq<char>) -> Option<Seq<char>> {
    match lookup(reg.use_statements.entries@, file) {
        Some(us) => import_match(us@, name, funcs_named(reg.functions.entries@, name)),
        None => None,
    }
}

/// Resolution with the imports of `file`: the current namespace first, then
/// the default one; then the first use statement of the file that imports
/// the name from a namespace that has it; then the only namespace that has
/// it. Two candidates at one of the namespace steps make the call
/// ambiguous.
pub open spec fn resolve_imports_spec(
    reg: NamespaceRegistry,
    name: Seq<char>,
    file: Seq<char>,
    cur: Seq<char>,
) -> Result<Option<Seq<char>>, NamespaceErrorView> {
    let dflt = reg.default_space@;
    match funcs_named(reg.functions.entries@, name) {
        None => Ok(None),
        Some(fs) => if count_in_ns(fs, cur) == 1 {
            Ok(Some(cur))
        } else if count_in_ns(fs, cur) > 1 {
            Err(NamespaceErrorView::AmbiguousCall(name))
        } else if count_in_ns(fs, dflt) == 1 {
            Ok(Some(dflt))
        } else if count_in_ns(fs, dflt) > 1 {
            Err(NamespaceErrorView::AmbiguousCall(name))
        } else if import_hit(reg, name, file) is Some {
            Ok(import_hit(reg, name, file))
        } else if fs.len() == 1 {
            Ok(Some(fs[0].namespace@))
        } else if fs.len() > 1 {
            Err(NamespaceErrorView::AmbiguousCall(name))
        } else {
            Ok(None)
        },
    }
}

impl NamespaceRegistry {
    /// Move the first class named `parent_class` into namespace `child_ns`,
    /// because class `child_class` there inherits from it: every class of
    /// that name in the parent's old namespace is dropped, the moved copy is
    /// registered in `child_ns`, and a warning records the move.
    pub fn apply_inheritance(&mut self, child_class: &str, parent_class: &str, child_ns: &str)
        requires
            old(self).wf(),
        ensures
            final(self).wf(),
            classes_named(old(self).classes.entries@, parent_class@) is None ==> {
                &&& final(self).classes.entries@ == old(self).classes.entries@
                &&& final(self).warnings@ == old(self).warnings@
            },
            classes_named(old(self).classes.entries@, parent_class@) matches Some(cs) ==> {
                let p0 = cs[0];
                let kept = outside_ns(cs, p0.namespace@);
                &&& classes_named(final(self).classes.entries@, parent_class@) matches Some(cs2)
                &&& cs2.len() == kept.len() + 1
                &&& cs2.drop_last() == kept
                &&& moved_to(p0, cs2.last(), child_ns@)
                &&& forall|q: Seq<char>|
                    #![trigger final(self).classes.spec_get(q)]
                    q != parent_class@ ==> final(self).classes.spec_get(q) == old(
                        self,
                    ).classes.spec_get(q)
                &&& strs(final(self).warnings@) == strs(old(self).warnings@) + (if has_in_ns(
                    kept,
                    child_ns@,
                ) {
                    seq![dup_class_warning(parent_class@, child_ns@)]
                } else {
                    Seq::<Seq<char>>::empty()
                }) + seq![inherit_warning(parent_class@, child_class@, child_ns@)]
            },
            final(self).spaces == old(self).spaces,
            final(self).functions == old(self).functions,
            final(self).default_space == old(self).default_space,
            final(self).use_statements == old(self).use_statements,
    {
        let ghost e = self.classes.entries@;
        let idx = match self.classes.index_of(parent_class) {
            Some(i) => i,
            None => {
                return ;
            },
        };
        proof {
            crate::table::lemma_index_in(e, parent_class@);
            assert(class_entry_ok(lookup(e, parent_class@), parent_class@));
        }
        let pair = self.classes.entries.remove(idx);
        let ghost cs = pair.1@;
        let parent_info = pair.1[0].copy();
        let key = pair.0;
        let kept = keep_outside_ns(pair.1, parent_info.namespace.as_str());
        let ghost kept_v = kept;
        self.classes.entries.insert(idx, (key, kept));
        let ghost e1 = self.classes.entries@;
        proof {
            assert forall|k: int| 0 <= k < e.len() && k != idx implies e1[k] == e[k] by {}
            assert forall|q: Seq<char>| #[trigger] lookup(e1, q) == if index_in(e, q) == Some(
                idx as int,
            ) {
                Some(kept_v)
            } else {
                lookup(e, q)
            } by {
                lemma_entry_replaced(e, e1, idx as int, q);
            }
            assert(lookup(e1, parent_class@) == Some(kept_v));
            assert(items_of(e1, parent_class@) == outside_ns(cs, cs[0].namespace@));
        }
        let mut new_parent = parent_info;
        new_parent.namespace = String::from_str(child_ns);
        proof {
            assert(new_parent.name@ == parent_class@);
        }
        let ghost np = new_parent;
        let ghost w0 = strs(self.warnings@);
        self.register_class(new_parent);
        let ghost w1 = strs(self.warnings@);
        let mut w = String::from_str("Class '");
        w.append(parent_class);
        w.append("' inherited by '");
        w.append(child_class);
        w.append("' - moved to namespace '");
        w.append(child_ns);
        w.append("' (过继)");
        self.warnings.push(w);
        proof {
            assert(strs(self.warnings@) =~= w1 + seq![inherit_warning(parent_class@, child_class@, child_ns@)]);
            assert(w0 == strs(old(self).warnings@));
            assert forall|q: Seq<char>| q != parent_class@ implies #[trigger] self.classes.spec_get(q) == old(self).classes.spec_get(q) by {
                crate::table::lemma_index_in(e, q);
                assert(lookup(e1, q) == lookup(e, q));
            }
            let e2 = self.classes.entries@;
            lemma_outside_ns_sub(cs, cs[0].namespace@);
            assert(classes_named(e2, parent_class@) == Some(kept_v@.push(np)));
            assert forall|q: Seq<char>| #[trigger] class_entry_ok(lookup(e2, q), q) by {
                assert(class_entry_ok(lookup(e, q), q));
                if q == parent_class@ {
                    let v = lookup(e2, q).unwrap();
                    assert(v@ == kept_v@.push(np));
                    assert forall|j: int| 0 <= j < v@.len() implies (#[trigger] v@[j]).name@ == q by {
                        if j < kept_v@.len() {
                            assert(v@[j] == kept_v@[j]);
                            let k = choose|k: int| 0 <= k < cs.len() && #[trigger] cs[k] == outside_ns(cs, cs[0].namespace@)[j];
                            assert(cs[k].name@ == q);
                        }
                    }
                } else {
                    assert(self.classes.spec_get(q) == old(self).classes.spec_get(q));
                }
            }
        }
    }

    /// Resolve function `name` called from namespace `current_ns` in file
    /// `current_file`: the current namespace, then the default one, then the
    /// file's use statements (`use ns;` imports every name of `ns`, `use
    /// ns.item;` the one item), then the only namespace that has it.
    pub fn resolve_with_imports(&self, name: &str, current_file: &str, current_ns: &str) -> (r: Result<
        Option<String>,
        NamespaceError,
    >)
        ensures
            resolve_view(r) == resolve_imports_spec(*self, name@, current_file@, current_ns@),
    {
        let funcs = match self.functions.get(name) {
            None => {
                return Ok(None);
            },
            Some(f) => f,
        };
        let ghost fs = funcs_named(self.functions.entries@, name@);
        assert(fs == Some(funcs@));
        let in_current = count_functions_in(funcs, current_ns);
        if in_current == 1 {
            return Ok(Some(String::from_str(current_ns)));
        } else if in_current > 1 {
            return Err(NamespaceError::AmbiguousCall(String::from_str(name)));
        }
        let in_default = count_functions_in(funcs, self.default_space.as_str());
        if in_default == 1 {
            return Ok(Some(self.default_space.clone()));
        } else if in_default > 1 {
            return Err(NamespaceError::AmbiguousCall(String::from_str(name)));
        }
        if let Some(uses) = self.use_statements.get(current_file) {
            assert(lookup(self.use_statements.entries@, current_file@) == Some(*uses));
            assert(uses@.subrange(0, uses@.len() as int) =~= uses@);
            let mut i: usize = 0;
            while i < uses.len()
                invariant
                    0 <= i <= uses.len(),
                    fs == funcs_named(self.functions.entries@, name@),
                    fs == Some(funcs@),
                    count_in_ns(funcs@, current_ns@) == 0,
                    count_in_ns(funcs@, self.default_space@) == 0,
                    lookup(self.use_statements.entries@, current_file@) == Some(*uses),
                    import_match(uses@, name@, fs) == import_match(
                        uses@.subrange(i as int, uses@.len() as int),
                        name@,
                        fs,
                    ),
                decreases uses.len() - i,
            {
                let u = &uses[i];
                let ghost rest = uses@.subrange(i as int, uses@.len() as int);
                assert(rest[0] == uses@[i as int]);
                assert(rest.drop_first() =~= uses@.subrange(i + 1, uses@.len() as int));
                let matches = match &u.item {
                    None => true,
                    Some(item) => str_eq(item.as_str(), name),
                };
                if matches && count_functions_in(funcs, u.namespace.as_str()) > 0 {
                    assert(import_match(rest, name@, fs) == Some(u.namespace@));
                    assert(import_hit(*self, name@, current_file@) == Some(u.namespace@));
                    let r = Some(u.namespace.clone());
                    assert(r.deep_view() == Some(u.namespace@));
                    return Ok(r);
                }
                i = i + 1;
            }
            assert(uses@.subrange(uses@.len() as int, uses@.len() as int) =~= Seq::<UseStmt>::empty());
        }
        if funcs.len() == 1 {
            return Ok(Some(funcs[0].namespace.clone()));
        } else if funcs.len() > 1 {
            return Err(NamespaceError::AmbiguousCall(String::from_str(name)));
        }
        Ok(None)
    }
}

proof fn lemma_outside_ns_sub(cs: Seq<ClassInfo>, ns: Seq<char>)
    ensures
        forall|j: int| 0 <= j < outside_ns(cs, ns).len() ==> exists|k: int| 0 <= k < cs.len() && cs[k] == #[trigger] outside_ns(cs, ns)[j],
    decreases cs.len(),
{
    if cs.len() > 0 {
        lemma_outside_ns_sub(cs.drop_last(), ns);
        let r = outside_ns(cs.drop_last(), ns);
        assert forall|j: int| 0 <= j < outside_ns(cs, ns).len() implies exists|k: int| 0 <= k < cs.len() && cs[k] == #[trigger] outside_ns(cs, ns)[j] by {
            if j < r.len() {
                assert(outside_ns(cs, ns)[j] == r[j]);
                let k = choose|k: int| 0 <= k < cs.drop_last().len() && cs.drop_last()[k] == r[j];
                assert(cs[k] == r[j]);
            } else {
                assert(cs[cs.len() - 1] == outside_ns(cs, ns)[j]);
            }
        }
    }
}

/// The name declared by a trimmed `namespace NAME;` line.
pub open spec fn decl_name(t: Seq<char>) -> Seq<char> {
    trim(t.subrange("namespace "@.len() as int, t.len() - 1))
}

/// A trimmed line that declares a namespace: `namespace ...;`.
pub open spec fn is_decl_line(t: Seq<char>) -> bool {
    has_prefix(t, "namespace "@) && t.len() > 0 && t.last() == ';'
}

/// Scan of the file's top: blank and comment lines are skipped, a
/// `namespace NAME;` line declares the file's namespace (rejecting a second
/// declaration, an empty, a dotted or a reserved name) and is removed from
/// the remaining source, and the first other line ends the scan.  Returns
/// the outcome and the namespace registered on the way.
pub open spec fn decl_scan(
    ls: Seq<Seq<char>>,
    found: Option<Seq<char>>,
    rem: Seq<char>,
    file: Seq<char>,
) -> (Result<(Option<Seq<char>>, Seq<char>), NamespaceErrorView>, Option<Seq<char>>)
    decreases ls.len(),
{
    if ls.len() == 0 {
        (Ok((found, rem)), found)
    } else {
        let line = ls[0];
        let t = trim(line);
        if blank_or_comment(t) {
            decl_scan(ls.drop_first(), found, rem, file)
        } else if is_decl_line(t) {
            if found is Some {
                (Err(NamespaceErrorView::MultipleNamespaces(file)), found)
            } else {
                let ns = decl_name(t);
                if ns.len() == 0 {
                    (Err(NamespaceErrorView::InvalidPosition(file)), None)
                } else if has_char(ns, '.') {
                    (Err(NamespaceErrorView::NestedNamespace(ns)), None)
                } else if is_reserved(ns) {
                    (Err(NamespaceErrorView::ReservedNamespace(ns)), None)
                } else {
                    decl_scan(ls.drop_first(), Some(ns), remove_first(rem, line), file)
                }
            }
        } else if has_prefix(t, "namespace "@) {
            decl_scan(ls.drop_first(), found, rem, file)
        } else {
            (Ok((found, rem)), found)
        }
    }
}

proof fn lemma_decl_scan_found(ls: Seq<Seq<char>>, x: Seq<char>, rem: Seq<char>, file: Seq<char>)
    ensures
        decl_scan(ls, Some(x), rem, file).1 == Some(x),
    decreases ls.len(),
{
    if ls.len() > 0 {
        lemma_decl_scan_found(ls.drop_first(), x, rem, file);
    }
}

/// A name a file may declare as its namespace: not empty, flat (no `.`)
/// and not reserved.
pub open spec fn declarable(n: Seq<char>) -> bool {
    n.len() > 0 && !has_char(n, '.') && !is_reserved(n)
}

proof fn lemma_decl_scan_declarable(ls: Seq<Seq<char>>, found: Option<Seq<char>>, rem: Seq<char>, file: Seq<char>)
    requires
        found matches Some(n) ==> declarable(n),
    ensures
        decl_scan(ls, found, rem, file).0 matches Ok((Some(n), _)) ==> declarable(n),
    decreases ls.len(),
{
    if ls.len() > 0 {
        let line = ls[0];
        let t = trim(line);
        if blank_or_comment(t) {
            lemma_decl_scan_declarable(ls.drop_first(), found, rem, file);
        } else if is_decl_line(t) {
            if found is None {
                let ns = decl_name(t);
                if declarable(ns) {
                    lemma_decl_scan_declarable(ls.drop_first(), Some(ns), remove_first(rem, line), file);
                }
            }
        } else if has_prefix(t, "namespace "@) {
            lemma_decl_scan_declarable(ls.drop_first(), found, rem, file);
        }
    }
}

/// A namespace that a file's declaration is accepted with is never empty,
/// nested or reserved: those are refused (Hust namespaces are flat, and
/// UPPERCASE names belong to the system).
pub proof fn law_accepted_namespace_is_declarable(source: Seq<char>, file: Seq<char>)
    ensures
        decl_scan(lines(source), None, source, file).0 matches Ok((Some(n), _)) ==> declarable(n),
{
    lemma_decl_scan_declarable(lines(source), None, source, file);
}

/// The outcome of [`NamespaceRegistry::parse_declaration`], by content.
pub open spec fn decl_view(r: Result<(Option<String>, String), NamespaceError>) -> Result<
    (Option<Seq<char>>, Seq<char>),
    NamespaceErrorView,
> {
    match r {
        Ok((o, s)) => Ok((o.deep_view(), s@)),
        Err(e) => Err(e@),
    }
}

impl NamespaceRegistry {
    /// Read the namespace declaration at the top of `source` (file
    /// `file_path`): returns the declared name, if any, and the source
    /// without the declaration line; a declared namespace gets `file_path`
    /// added to its files.
    pub fn parse_declaration(&mut self, source: &str, file_path: &str) -> (r: Result<
        (Option<String>, String),
        NamespaceError,
    >)
        ensures
            decl_view(r) == decl_scan(lines(source@), None, source@, file_path@).0,
            match decl_scan(lines(source@), None, source@, file_path@).1 {
                Some(ns) => {
                    &&& strs(items_of(final(self).spaces.entries@, ns)) == strs(
                        items_of(old(self).spaces.entries@, ns),
                    ).push(file_path@)
                    &&& final(self).spaces.spec_get(ns) is Some
                    &&& forall|q: Seq<char>|
                        #![trigger final(self).spaces.spec_get(q)]
                        q != ns ==> final(self).spaces.spec_get(q) == old(self).spaces.spec_get(q)
                },
                None => final(self).spaces == old(self).spaces,
            },
            final(self).functions == old(self).functions,
            final(self).classes == old(self).classes,
            final(self).default_space == old(self).default_space,
            final(self).warnings == old(self).warnings,
            final(self).use_statements == old(self).use_statements,
    {
        let src = chars_of(source);
        let ls = split_lines(&src);
        let ghost all = lines(source@);
        let ghost file = file_path@;
        let mut found: Option<String> = None;
        let mut remaining: Vec<char> = sub_vec(&src, 0, src.len());
        assert(src@.subrange(0, src@.len() as int) =~= src@);
        assert(vviews(ls@).subrange(0, ls@.len() as int) =~= all);
        let mut i: usize = 0;
        while i < ls.len()
            invariant
                0 <= i <= ls.len(),
                vviews(ls@) == all,
                all == lines(source@),
                file == file_path@,
                decl_scan(all, None, source@, file) == decl_scan(
                    all.subrange(i as int, all.len() as int),
                    found.deep_view(),
                    remaining@,
                    file,
                ),
                found is None ==> self.spaces == old(self).spaces,
                found matches Some(ns) ==> {
                    &&& strs(items_of(self.spaces.entries@, ns@)) == strs(
                        items_of(old(self).spaces.entries@, ns@),
                    ).push(file_path@)
                    &&& self.spaces.spec_get(ns@) is Some
                    &&& forall|q: Seq<char>|
                        #![trigger self.spaces.spec_get(q)]
                        q != ns@ ==> self.spaces.spec_get(q) == old(self).spaces.spec_get(q)
                },
                self.functions == old(self).functions,
                self.classes == old(self).classes,
                self.default_space == old(self).default_space,
                self.warnings == old(self).warnings,
                self.use_statements == old(self).use_statements,
            decreases ls.len() - i,
        {
            let line = &ls[i];
            let ghost rest = all.subrange(i as int, all.len() as int);
            assert(rest[0] == line@);
            assert(rest.drop_first() =~= all.subrange(i + 1, all.len() as int));
            let (a, b) = trim_bounds(line, 0, line.len());
            assert(line@.subrange(0, line@.len() as int) =~= line@);
            let t = sub_vec(line, a, b);
            assert(t@ == trim(line@));
            if is_blank_or_comment(&t) {
                i = i + 1;
                continue;
            }
            let is_ns = starts_with_str(&t, "namespace ");
            if !is_ns {
                proof {
                    assert(!is_decl_line(t@));
                    assert(!blank_or_comment(trim(rest[0])));
                    assert(!has_prefix(trim(rest[0]), "namespace "@));
                    assert(decl_scan(rest, found.deep_view(), remaining@, file) == (Ok::<(Option<Seq<char>>, Seq<char>), NamespaceErrorView>((found.deep_view(), remaining@)), found.deep_view()));
                }
                let out = string_of(&remaining);
                return Ok((found, out));
            }
            if t.len() > 0 && t[t.len() - 1] == ';' {
                assert(is_decl_line(t@));
                if found.is_some() {
                    return Err(NamespaceError::MultipleNamespaces(String::from_str(file_path)));
                }
                let pv = chars_of("namespace ");
                let plen = pv.len();
                proof {
                    reveal_strlit("namespace ");
                    assert(t@.subrange(0, plen as int) == pv@);
                    if t.len() == plen {
                        assert(t@.last() == pv@.last());
                    }
                }
                let (c, d) = trim_bounds(&t, plen, t.len() - 1);
                let name = sub_vec(&t, c, d);
                assert(name@ == decl_name(t@));
                if name.len() == 0 {
                    return Err(NamespaceError::InvalidPosition(String::from_str(file_path)));
                }
                if contains_char(&name, '.') {
                    return Err(NamespaceError::NestedNamespace(string_of(&name)));
                }
                let name_s = string_of(&name);
                if Self::is_reserved_namespace(name_s.as_str()) {
                    return Err(NamespaceError::ReservedNamespace(name_s));
                }
                remaining = remove_first_vec(&remaining, line);
                let ghost before = self.spaces.entries@;
                self.spaces.push_to(name_s.clone(), String::from_str(file_path));
                proof {
                    assert(strs(items_of(self.spaces.entries@, name@)) =~= strs(
                        items_of(before, name@),
                    ).push(file_path@));
                }
                found = Some(name_s);
            } else {
                assert(!is_decl_line(t@));
            }
            i = i + 1;
        }
        proof {
            assert(all.subrange(i as int, all.len() as int) =~= Seq::<Seq<char>>::empty());
        }
        Ok((found, string_of(&remaining)))
    }
}

/// A use statement's content: namespace, item, alias.
pub open spec fn use_view(u: UseStmt) -> (Seq<char>, Option<Seq<char>>, Option<Seq<char>>) {
    (u.namespace@, u.item.deep_view(), u.alias.deep_view())
}

pub open spec fn uses_view(us: Seq<UseStmt>) -> Seq<(Seq<char>, Option<Seq<char>>, Option<Seq<char>>)> {
    us.map_values(|u: UseStmt| use_view(u))
}

/// The namespace/item split of `use` target `p` (alias already removed):
/// `ns.*` and `ns` import a whole namespace, `ns.item` one item; a reserved
/// (system) prefix keeps the whole dotted path as the namespace.
pub open spec fn split_use_target(p: Seq<char>) -> (Seq<char>, Option<Seq<char>>) {
    if p.len() >= 2 && p[p.len() - 2] == '.' && p[p.len() - 1] == '*' {
        (trim(p.subrange(0, p.len() - 2)), None)
    } else if last_idx_of(p, '.') >= 0 {
        let pos = last_idx_of(p, '.');
        let ns = trim(p.subrange(0, pos));
        let item = trim(p.subrange(pos + 1, p.len() as int));
        if is_reserved(ns) {
            (trim(p), Some(item))
        } else {
            (ns, Some(item))
        }
    } else {
        (trim(p), None)
    }
}

/// The part of a use statement before ` as `.
pub open spec fn use_target(stmt: Seq<char>) -> Seq<char> {
    match find(stmt, " as "@) {
        Some(pos) => stmt.subrange(0, pos),
        None => stmt,
    }
}

/// The alias of a use statement: the trimmed part after ` as `.
pub open spec fn use_alias(stmt: Seq<char>) -> Option<Seq<char>> {
    match find(stmt, " as "@) {
        Some(pos) => Some(trim(stmt.subrange(pos + " as "@.len(), stmt.len() as int))),
        None => None,
    }
}

fn split_alias(stmt: &Vec<char>) -> (r: (Vec<char>, Option<String>))
    ensures
        r.0@ == use_target(stmt@),
        r.1.deep_view() == use_alias(stmt@),
{
    let asv = chars_of(" as ");
    match find_vec(stmt, &asv) {
        Some(pos) => {
            assert(occurs_at(stmt@, asv@, pos as int));
            let n: usize = asv.len();
            assert(pos + n <= stmt.len());
            let start: usize = pos + n;
            let (a, b) = trim_bounds(stmt, start, stmt.len());
            (sub_vec(stmt, 0, pos), Some(string_of_range(stmt, a, b)))
        },
        None => {
            let all = sub_vec(stmt, 0, stmt.len());
            assert(stmt@.subrange(0, stmt@.len() as int) =~= stmt@);
            (all, None)
        },
    }
}

/// A trimmed line `use TARGET [as ALIAS];` read as a use statement.
pub open spec fn parse_use(t: Seq<char>) -> Option<(Seq<char>, Option<Seq<char>>, Option<Seq<char>>)> {
    if has_prefix(t, "use "@) && t.len() > 0 && t.last() == ';' {
        let stmt = t.subrange("use "@.len() as int, t.len() - 1);
        let (ns, item) = split_use_target(use_target(stmt));
        let alias = use_alias(stmt);
        if ns.len() > 0 {
            Some((ns, item, alias))
        } else {
            None
        }
    } else {
        None
    }
}

/// Collect the use statements of `ls` after `acc`, removing each from `rem`
/// (with its line feed, and once more without one if it still occurs).
pub open spec fn use_scan(
    ls: Seq<Seq<char>>,
    acc: Seq<(Seq<char>, Option<Seq<char>>, Option<Seq<char>>)>,
    rem: Seq<char>,
) -> (Seq<(Seq<char>, Option<Seq<char>>, Option<Seq<char>>)>, Seq<char>)
    decreases ls.len(),
{
    if ls.len() == 0 {
        (acc, rem)
    } else {
        let t = trim(ls[0]);
        match parse_use(t) {
            Some(u) => {
                let rem1 = remove_first(rem, with_nl(t));
                let rem2 = if contains(rem1, t) {
                    remove_first(rem1, t)
                } else {
                    rem1
                };
                use_scan(ls.drop_first(), acc.push(u), rem2)
            },
            None => use_scan(ls.drop_first(), acc, rem),
        }
    }
}

impl UseStmt {
    /// A field-by-field copy.
    pub fn copy(&self) -> (r: Self)
        ensures
            use_view(r) == use_view(*self),
    {
        UseStmt {
            namespace: self.namespace.clone(),
            item: match &self.item {
                Some(i) => Some(i.clone()),
                None => None,
            },
            alias: match &self.alias {
                Some(a) => Some(a.clone()),
                None => None,
            },
        }
    }
}

fn copy_uses(v: &Vec<UseStmt>) -> (r: Vec<UseStmt>)
    ensures
        uses_view(r@) == uses_view(v@),
{
    let mut r: Vec<UseStmt> = Vec::new();
    let mut i: usize = 0;
    while i < v.len()
        invariant
            0 <= i <= v.len(),
            r@.len() == i,
            forall|j: int| 0 <= j < i ==> use_view(#[trigger] r@[j]) == use_view(v@[j]),
        decreases v.len() - i,
    {
        let c = v[i].copy();
        r.push(c);
        i = i + 1;
    }
    assert(uses_view(r@) =~= uses_view(v@));
    r
}

/// The namespace and item of use target `target`.
fn split_target(target: &Vec<char>) -> (r: (String, Option<String>))
    ensures
        (r.0@, r.1.deep_view()) == split_use_target(target@),
{
    let n = target.len();
    if n >= 2 && target[n - 2] == '.' && target[n - 1] == '*' {
        let (a, b) = trim_bounds(target, 0, n - 2);
        (string_of_range(target, a, b), None)
    } else {
        match rfind_char(target, '.') {
            Some(pos) => {
                let (a, b) = trim_bounds(target, 0, pos);
                let nsv = string_of_range(target, a, b);
                let (c, d) = trim_bounds(target, pos + 1, n);
                let itv = string_of_range(target, c, d);
                if NamespaceRegistry::is_reserved_namespace(nsv.as_str()) {
                    let (e, f) = trim_bounds(target, 0, n);
                    assert(target@.subrange(0, n as int) =~= target@);
                    (string_of_range(target, e, f), Some(itv))
                } else {
                    (nsv, Some(itv))
                }
            },
            None => {
                let (a, b) = trim_bounds(target, 0, n);
                assert(target@.subrange(0, n as int) =~= target@);
                (string_of_range(target, a, b), None)
            },
        }
    }
}

/// The use statement read from trimmed line `t`, if it is one.
fn parse_use_line(t: &Vec<char>) -> (r: Option<UseStmt>)
    ensures
        match r {
            Some(u) => parse_use(t@) == Some(use_view(u)),
            None => parse_use(t@) is None,
        },
{
    if !(starts_with_str(t, "use ") && t.len() > 0 && t[t.len() - 1] == ';') {
        return None;
    }
    let uv = chars_of("use ");
    proof {
        reveal_strlit("use ");
        assert(t@.subrange(0, uv.len() as int) == uv@);
        if t.len() == uv.len() {
            assert(t@.last() == uv@.last());
        }
    }
    let stmt = sub_vec(t, uv.len(), t.len() - 1);
    let (target, alias) = split_alias(&stmt);
    let (ns, item) = split_target(&target);
    if ns.as_str().is_empty() {
        return None;
    }
    Some(UseStmt { namespace: ns, item, alias })
}

impl NamespaceRegistry {
    /// Read the use statements of `source` (file `file_path`), record them
    /// for the file and return them with the source that remains once their
    /// lines are removed.
    pub fn parse_use_statements(&mut self, source: &str, file_path: &str) -> (r: (
        Vec<UseStmt>,
        String,
    ))
        ensures
            uses_view(r.0@) == use_scan(lines(source@), Seq::empty(), source@).0,
            r.1@ == use_scan(lines(source@), Seq::empty(), source@).1,
            final(self).use_statements.spec_get(file_path@) matches Some(v) && uses_view(v@)
                == use_scan(lines(source@), Seq::empty(), source@).0,
            forall|q: Seq<char>|
                #![trigger final(self).use_statements.spec_get(q)]
                q != file_path@ ==> final(self).use_statements.spec_get(q) == old(
                    self,
                ).use_statements.spec_get(q),
            final(self).spaces == old(self).spaces,
            final(self).functions == old(self).functions,
            final(self).classes == old(self).classes,
            final(self).default_space == old(self).default_space,
            final(self).warnings == old(self).warnings,
    {
        let src = chars_of(source);
        let ls = split_lines(&src);
        let ghost all = lines(source@);
        let mut uses: Vec<UseStmt> = Vec::new();
        let mut remaining: Vec<char> = sub_vec(&src, 0, src.len());
        assert(src@.subrange(0, src@.len() as int) =~= src@);
        assert(vviews(ls@).subrange(0, ls@.len() as int) =~= all);
        assert(uses_view(uses@) =~= Seq::empty());
        let mut i: usize = 0;
        while i < ls.len()
            invariant
                0 <= i <= ls.len(),
                vviews(ls@) == all,
                all == lines(source@),
                use_scan(all, Seq::empty(), source@) == use_scan(
                    all.subrange(i as int, all.len() as int),
                    uses_view(uses@),
                    remaining@,
                ),
            decreases ls.len() - i,
        {
            let line = &ls[i];
            let ghost rest = all.subrange(i as int, all.len() as int);
            assert(rest[0] == line@);
            assert(rest.drop_first() =~= all.subrange(i + 1, all.len() as int));
            let (a, b) = trim_bounds(line, 0, line.len());
            assert(line@.subrange(0, line@.len() as int) =~= line@);
            let t = sub_vec(line, a, b);
            match parse_use_line(&t) {
                Some(u) => {
                    let ghost acc = uses_view(uses@);
                    uses.push(u);
                    assert(uses_view(uses@) =~= acc.push(use_view(u)));
                    let mut tn = sub_vec(&t, 0, t.len());
                    assert(t@.subrange(0, t@.len() as int) =~= t@);
                    tn.push('\n');
                    remaining = remove_first_vec(&remaining, &tn);
                    if find_vec(&remaining, &t).is_some() {
                        remaining = remove_first_vec(&remaining, &t);
                    }
                },
                None => {},
            }
            i = i + 1;
        }
        assert(all.subrange(i as int, all.len() as int) =~= Seq::<Seq<char>>::empty());
        let stored = copy_uses(&uses);
        self.use_statements.insert(String::from_str(file_path), stored);
        (uses, string_of(&remaining))
    }
}

// The final component of a path, as `std::path::Path::file_name` gives it.
pub uninterp spec fn path_file_name(path: Seq<char>) -> Option<Seq<char>>;

/// `Path::new(path).file_name()`, as text. Its result is named, not stated:
/// the rules of path components (`.`, `..`, repeated and trailing `/`) are
/// std's.
#[verifier::external_body]
fn file_name_of(path: &str) -> (r: Option<String>)
    ensures
        r.deep_view() == path_file_name(path@),
{
    match std::path::Path::new(path).file_name() {
        Some(n) => n.to_str().map(String::from),
        None => None,
    }
}

/// How a file is listed in the report: its file name, or the whole path
/// when it has none.
pub open spec fn file_label(path: Seq<char>) -> Seq<char> {
    match path_file_name(path) {
        Some(n) => n,
        None => path,
    }
}

/// How many classes of `cs` belong to namespace `ns`.
pub open spec fn count_classes_in_ns(cs: Seq<ClassInfo>, ns: Seq<char>) -> nat
    decreases cs.len(),
{
    if cs.len() == 0 {
        0
    } else {
        count_classes_in_ns(cs.drop_last(), ns) + if cs.last().namespace@ == ns {
            1nat
        } else {
            0nat
        }
    }
}

/// How many registered functions, of any name, belong to namespace `ns`.
pub open spec fn functions_in(e: Seq<(String, Vec<FunctionInfo>)>, ns: Seq<char>) -> nat
    decreases e.len(),
{
    if e.len() == 0 {
        0
    } else {
        functions_in(e.drop_last(), ns) + count_in_ns(e.last().1@, ns)
    }
}

/// How many registered classes, of any name, belong to namespace `ns`.
pub open spec fn classes_in(e: Seq<(String, Vec<ClassInfo>)>, ns: Seq<char>) -> nat
    decreases e.len(),
{
    if e.len() == 0 {
        0
    } else {
        classes_in(e.drop_last(), ns) + count_classes_in_ns(e.last().1@, ns)
    }
}

/// How many items all the lists of `e` hold together.
pub open spec fn total_items<T>(e: Seq<(String, Vec<T>)>) -> nat
    decreases e.len(),
{
    if e.len() == 0 {
        0
    } else {
        total_items(e.drop_last()) + e.last().1@.len()
    }
}

proof fn lemma_count_in_ns_len(fs: Seq<FunctionInfo>, ns: Seq<char>)
    ensures
        count_in_ns(fs, ns) <= fs.len(),
    decreases fs.len(),
{
    if fs.len() > 0 {
        lemma_count_in_ns_len(fs.drop_last(), ns);
    }
}

proof fn lemma_count_classes_len(cs: Seq<ClassInfo>, ns: Seq<char>)
    ensures
        count_classes_in_ns(cs, ns) <= cs.len(),
    decreases cs.len(),
{
    if cs.len() > 0 {
        lemma_count_classes_len(cs.drop_last(), ns);
    }
}

proof fn lemma_functions_in_total(e: Seq<(String, Vec<FunctionInfo>)>, ns: Seq<char>)
    ensures
        functions_in(e, ns) <= total_items(e),
    decreases e.len(),
{
    if e.len() > 0 {
        lemma_functions_in_total(e.drop_last(), ns);
        lemma_count_in_ns_len(e.last().1@, ns);
    }
}

proof fn lemma_classes_in_total(e: Seq<(String, Vec<ClassInfo>)>, ns: Seq<char>)
    ensures
        classes_in(e, ns) <= total_items(e),
    decreases e.len(),
{
    if e.len() > 0 {
        lemma_classes_in_total(e.drop_last(), ns);
        lemma_count_classes_len(e.last().1@, ns);
    }
}

proof fn lemma_total_prefix<T>(e: Seq<(String, Vec<T>)>, k: int)
    requires
        0 <= k <= e.len(),
    ensures
        total_items(e.subrange(0, k)) <= total_items(e),
    decreases e.len() - k,
{
    if k < e.len() {
        lemma_total_prefix(e, k + 1);
        assert(e.subrange(0, k + 1).drop_last() =~= e.subrange(0, k));
    } else {
        assert(e.subrange(0, k) =~= e);
    }
}

/// The file lines of a report section.
pub open spec fn files_text(fs: Seq<Seq<char>>) -> Seq<char>
    decreases fs.len(),
{
    if fs.len() == 0 {
        Seq::empty()
    } else {
        files_text(fs.drop_last()) + "    - "@ + file_label(fs.last()) + "\n"@
    }
}

/// The report section of namespace `ns` with `nf` functions, `nc` classes
/// and files `fs`.
pub open spec fn section_text(ns: Seq<char>, nf: nat, nc: nat, fs: Seq<Seq<char>>) -> Seq<char> {
    "namespace \""@ + ns + "\":\n"@ + "  functions: "@ + dec(nf) + "\n"@ + "  classes: "@ + dec(nc)
        + "\n"@ + "  files ("@ + dec(fs.len()) + "):\n"@ + files_text(fs) + "\n"@
}

/// The sections of the namespaces of `reg` listed by `ord`, in that order.
pub open spec fn sections_text(reg: NamespaceRegistry, ord: Seq<usize>) -> Seq<char>
    decreases ord.len(),
{
    if ord.len() == 0 {
        Seq::empty()
    } else {
        let (k, fs) = reg.spaces.entries@[ord.last() as int];
        sections_text(reg, ord.drop_last()) + section_text(
            k@,
            functions_in(reg.functions.entries@, k@),
            classes_in(reg.classes.entries@, k@),
            strs(fs@),
        )
    }
}

/// The warning lines of the report.
pub open spec fn warnings_text(ws: Seq<Seq<char>>) -> Seq<char>
    decreases ws.len(),
{
    if ws.len() == 0 {
        Seq::empty()
    } else {
        warnings_text(ws.drop_last()) + "  \u{26a0} "@ + ws.last() + "\n"@
    }
}

/// The distribution report of `reg`: a section per namespace, by name,
/// then the warnings, if any.
pub open spec fn report_text(reg: NamespaceRegistry) -> Seq<char> {
    "=== Namespace Distribution Report ===\n\n"@ + sections_text(
        reg,
        sorted_order(keys_of(reg.spaces.entries@)),
    ) + if reg.warnings@.len() == 0 {
        Seq::empty()
    } else {
        "Warnings:\n"@ + warnings_text(strs(reg.warnings@))
    }
}

fn count_classes(cs: &Vec<ClassInfo>, ns: &str) -> (n: usize)
    ensures
        n == count_classes_in_ns(cs@, ns@),
{
    let mut n: usize = 0;
    let mut i: usize = 0;
    while i < cs.len()
        invariant
            0 <= i <= cs.len(),
            n == count_classes_in_ns(cs@.subrange(0, i as int), ns@),
            n <= i,
        decreases cs.len() - i,
    {
        assert(cs@.subrange(0, i + 1).drop_last() =~= cs@.subrange(0, i as int));
        if str_eq(cs[i].namespace.as_str(), ns) {
            n = n + 1;
        }
        i = i + 1;
    }
    assert(cs@.subrange(0, cs.len() as int) =~= cs@);
    n
}

impl NamespaceRegistry {
    /// All functions registered, of any name, in namespace `ns`.
    fn count_all_functions(&self, ns: &str) -> (n: usize)
        requires
            total_items(self.functions.entries@) <= usize::MAX,
        ensures
            n == functions_in(self.functions.entries@, ns@),
    {
        let e = &self.functions.entries;
        let mut n: usize = 0;
        let mut k: usize = 0;
        while k < e.len()
            invariant
                0 <= k <= e.len(),
                e@ == self.functions.entries@,
                total_items(e@) <= usize::MAX,
                n == functions_in(e@.subrange(0, k as int), ns@),
            decreases e.len() - k,
        {
            assert(e@.subrange(0, k + 1).drop_last() =~= e@.subrange(0, k as int));
            let c = count_functions_in(&e[k].1, ns);
            proof {
                lemma_functions_in_total(e@.subrange(0, k + 1), ns@);
                lemma_total_prefix(e@, k + 1);
            }
            n = n + c;
            k = k + 1;
        }
        assert(e@.subrange(0, e.len() as int) =~= e@);
        n
    }

    /// All classes registered, of any name, in namespace `ns`.
    fn count_all_classes(&self, ns: &str) -> (n: usize)
        requires
            total_items(self.classes.entries@) <= usize::MAX,
        ensures
            n == classes_in(self.classes.entries@, ns@),
    {
        let e = &self.classes.entries;
        let mut n: usize = 0;
        let mut k: usize = 0;
        while k < e.len()
            invariant
                0 <= k <= e.len(),
                e@ == self.classes.entries@,
                total_items(e@) <= usize::MAX,
                n == classes_in(e@.subrange(0, k as int), ns@),
            decreases e.len() - k,
        {
            assert(e@.subrange(0, k + 1).drop_last() =~= e@.subrange(0, k as int));
            let c = count_classes(&e[k].1, ns);
            proof {
                lemma_classes_in_total(e@.subrange(0, k + 1), ns@);
                lemma_total_prefix(e@, k + 1);
            }
            n = n + c;
            k = k + 1;
        }
        assert(e@.subrange(0, e.len() as int) =~= e@);
        n
    }

    /// Append the report section of the namespace at `idx`.
    #[verifier::rlimit(40)]
    fn push_section(&self, out: &mut Vec<char>, idx: usize)
        requires
            idx < self.spaces.entries@.len(),
            total_items(self.functions.entries@) <= usize::MAX,
            total_items(self.classes.entries@) <= usize::MAX,
        ensures
            final(out)@ == old(out)@ + section_text(
                self.spaces.entries@[idx as int].0@,
                functions_in(self.functions.entries@, self.spaces.entries@[idx as int].0@),
                classes_in(self.classes.entries@, self.spaces.entries@[idx as int].0@),
                strs(self.spaces.entries@[idx as int].1@),
            ),
    {
        let ns = self.spaces.entries[idx].0.as_str();
        let files = &self.spaces.entries[idx].1;
        push_str(out, "namespace \"");
        push_str(out, ns);
        push_str(out, "\":\n");
        push_str(out, "  functions: ");
        let nf = self.count_all_functions(ns);
        append_vec(out, &decimal(nf));
        push_str(out, "\n");
        push_str(out, "  classes: ");
        let nc = self.count_all_classes(ns);
        append_vec(out, &decimal(nc));
        push_str(out, "\n");
        push_str(out, "  files (");
        append_vec(out, &decimal(files.len()));
        push_str(out, "):\n");
        let ghost mid = out@;
        let mut f: usize = 0;
        while f < files.len()
            invariant
                0 <= f <= files.len(),
                out@ == mid + files_text(strs(files@).subrange(0, f as int)),
            decreases files.len() - f,
        {
            assert(strs(files@).subrange(0, f + 1).drop_last() =~= strs(files@).subrange(
                0,
                f as int,
            ));
            push_str(out, "    - ");
            match file_name_of(files[f].as_str()) {
                Some(n) => push_str(out, n.as_str()),
                None => push_str(out, files[f].as_str()),
            }
            push_str(out, "\n");
            f = f + 1;
        }
        assert(strs(files@).subrange(0, files.len() as int) =~= strs(files@));
        push_str(out, "\n");
        assert(strs(files@).len() == files@.len());
    }

    /// The report of how namespaces are distributed: for each namespace, in
    /// order of name, its function and class counts and its files; then the
    /// warnings collected.
    pub fn distribution_report(&self) -> (r: String)
        requires
            total_items(self.functions.entries@) <= usize::MAX,
            total_items(self.classes.entries@) <= usize::MAX,
        ensures
            r@ == report_text(*self),
    {
        let mut out: Vec<char> = Vec::new();
        push_str(&mut out, "=== Namespace Distribution Report ===\n\n");
        let sp = &self.spaces.entries;
        let mut ks: Vec<Vec<char>> = Vec::new();
        let mut k: usize = 0;
        while k < sp.len()
            invariant
                0 <= k <= sp.len(),
                sp@ == self.spaces.entries@,
                ks@.len() == k,
                texts(ks@) == keys_of(sp@).subrange(0, k as int),
            decreases sp.len() - k,
        {
            let kv = chars_of(sp[k].0.as_str());
            let ghost old_ks = ks@;
            ks.push(kv);
            proof {
                assert(kv@ == keys_of(sp@)[k as int]);
                assert forall|j: int| 0 <= j < k + 1 implies texts(ks@)[j] == keys_of(sp@).subrange(0, k + 1)[j] by {
                    if j < k {
                        assert(texts(old_ks)[j] == keys_of(sp@).subrange(0, k as int)[j]);
                    }
                }
                assert(texts(ks@) =~= keys_of(sp@).subrange(0, k + 1));
            }
            k = k + 1;
        }
        assert(keys_of(sp@).subrange(0, sp.len() as int) =~= keys_of(sp@));
        let ord = sort_order(&ks);
        let ghost head = out@;
        let mut p: usize = 0;
        while p < ord.len()
            invariant
                0 <= p <= ord.len(),
                sp@ == self.spaces.entries@,
                ord@ == sorted_order(keys_of(sp@)),
                sorts(keys_of(sp@), ord@),
                total_items(self.functions.entries@) <= usize::MAX,
                total_items(self.classes.entries@) <= usize::MAX,
                out@ == head + sections_text(*self, ord@.subrange(0, p as int)),
            decreases ord.len() - p,
        {
            let idx = ord[p];
            self.push_section(&mut out, idx);
            proof {
                assert(ord@.subrange(0, p + 1).drop_last() =~= ord@.subrange(0, p as int));
            }
            p = p + 1;
        }
        assert(ord@.subrange(0, ord.len() as int) =~= ord@);
        if self.warnings.len() > 0 {
            push_str(&mut out, "Warnings:\n");
            let ghost mid = out@;
            let mut w: usize = 0;
            while w < self.warnings.len()
                invariant
                    0 <= w <= self.warnings.len(),
                    out@ == mid + warnings_text(strs(self.warnings@).subrange(0, w as int)),
                decreases self.warnings.len() - w,
            {
                assert(strs(self.warnings@).subrange(0, w + 1).drop_last() =~= strs(
                    self.warnings@,
                ).subrange(0, w as int));
                push_str(&mut out, "  \u{26a0} ");
                push_str(&mut out, self.warnings[w].as_str());
                push_str(&mut out, "\n");
                w = w + 1;
            }
            assert(strs(self.warnings@).subrange(0, self.warnings.len() as int) =~= strs(
                self.warnings@,
            ));
        }
        string_of(&out)
    }
}

/// Registering a function in a namespace that held no function of that name
/// makes calls of that name from the namespace resolve to it.
pub proof fn law_registered_function_resolves(
    m: StrMap<Vec<FunctionInfo>>,
    m2: StrMap<Vec<FunctionInfo>>,
    f: FunctionInfo,
    dflt: Seq<char>,
)
    requires
        function_registered(m, m2, f),
        count_in_ns(items_of(m.entries@, f.name@), f.namespace@) == 0,
    ensures
        resolve_spec(funcs_named(m2.entries@, f.name@), f.name@, f.namespace@, dflt) == Ok::<
            Option<Seq<char>>,
            NamespaceErrorView,
        >(Some(f.namespace@)),
{
    assert(m2.spec_get(f.name@) is Some);
    let fs = items_of(m.entries@, f.name@);
    assert(items_of(m2.entries@, f.name@) == fs.push(f));
    assert(fs.push(f).drop_last() =~= fs);
}

/// The first class named `class` in namespace `ns`, after `e` became `e2`
/// by recording something in that class, is the one recorded in.
proof fn lemma_slot_after(
    cs: Seq<ClassInfo>,
    cs2: Seq<ClassInfo>,
    ns: Seq<char>,
    name: Seq<char>,
    slot: Option<int>,
)
    requires
        slot == first_in_ns(cs, ns),
        slot matches Some(j) ==> cs2.len() == cs.len() && cs2[j].namespace == cs[j].namespace
            && forall|k: int| 0 <= k < cs.len() && k != j ==> cs2[k] == cs[k],
        slot is None ==> cs2.len() == cs.len() + 1 && cs2.drop_last() == cs && is_placeholder(
            cs2.last(),
            name,
            ns,
        ),
    ensures
        first_in_ns(cs2, ns) == match slot {
            Some(j) => Some(j),
            None => Some(cs.len() as int),
        },
{
    lemma_first_in_ns(cs, ns);
    match slot {
        Some(j) => {
            assert forall|k: int| 0 <= k < j implies cs2[k].namespace@ != ns by {
                assert(cs2[k] == cs[k]);
            }
            lemma_first_in_ns_is(cs2, ns, j);
        },
        None => {
            assert forall|k: int| 0 <= k < cs.len() implies cs2[k].namespace@ != ns by {
                assert(cs2[k] == cs2.drop_last()[k]);
            }
            lemma_first_in_ns_is(cs2, ns, cs.len() as int);
        },
    }
}

/// After a method is recorded in a class, callers outside the class may
/// call it exactly when it is public, and the class itself always may:
/// [`NamespaceRegistry::register_method`] leaves the classes as
/// `method_registered` says, and [`NamespaceRegistry::is_method_accessible`]
/// answers `accessible_spec` of them.
pub proof fn law_registered_method_access(
    e: Seq<(String, Vec<ClassInfo>)>,
    e2: Seq<(String, Vec<ClassInfo>)>,
    class: Seq<char>,
    m: MethodInfo,
    ns: Seq<char>,
    other: Option<Seq<char>>,
)
    requires
        method_registered(e, e2, class, m, ns),
        other != Some(class),
    ensures
        accessible_spec(classes_named(e2, class), class, m.name@, ns, other) == m.is_public,
        accessible_spec(classes_named(e2, class), class, m.name@, ns, Some(class)),
{
    let cs = items_of(e, class);
    let cs2 = classes_named(e2, class)->Some_0;
    let slot = class_slot(e, class, ns);
    assert(slot == first_in_ns(cs, ns));
    match slot {
        Some(j) => {
            lemma_first_in_ns(cs, ns);
        },
        None => {},
    }
    lemma_slot_after(cs, cs2, ns, class, slot);
}

/// After nested class `inner` of class `outer` (a name without `.`) is
/// recorded with full path `full`, `outer.inner` resolves to `full` in that
/// namespace: [`NamespaceRegistry::register_nested_class`] leaves the classes
/// as `nested_registered` says, and
/// [`NamespaceRegistry::resolve_nested_class`] answers `resolve_nested_spec`
/// of them.
pub proof fn law_registered_nested_resolves(
    e: Seq<(String, Vec<ClassInfo>)>,
    e2: Seq<(String, Vec<ClassInfo>)>,
    outer: Seq<char>,
    inner: Seq<char>,
    full: Seq<char>,
    ns: Seq<char>,
)
    requires
        nested_registered(e, e2, outer, inner, full, ns),
        !has_char(outer, '.'),
    ensures
        resolve_nested_spec(e2, outer + "."@ + inner, ns) == Some(full),
{
    reveal_strlit(".");
    let path = outer + "."@ + inner;
    let cs = items_of(e, outer);
    let cs2 = classes_named(e2, outer)->Some_0;
    let slot = class_slot(e, outer, ns);
    assert(slot == first_in_ns(cs, ns));
    match slot {
        Some(j) => {
            lemma_first_in_ns(cs, ns);
        },
        None => {},
    }
    lemma_slot_after(cs, cs2, ns, outer, slot);
    assert forall|k: int| 0 <= k < outer.len() implies path[k] != '.' by {
        assert(path[k] == outer[k]);
    }
    assert(path[outer.len() as int] == '.');
    crate::text::lemma_idx_of(path, '.', outer.len() as int);
    assert(path.subrange(0, outer.len() as int) =~= outer);
    assert(path.subrange(outer.len() as int + 1, path.len() as int) =~= inner);
}

/// A path without `.` names no nested class: resolving it gives nothing,
/// whatever is registered.
pub proof fn law_flat_path_resolves_to_nothing(e: Seq<(String, Vec<ClassInfo>)>, path: Seq<char>, ns: Seq<char>)
    requires
        !has_char(path, '.'),
    ensures
        resolve_nested_spec(e, path, ns) is None,
{
    assert forall|k: int| 0 <= k < path.len() implies path[k] != '.' by {
        if path[k] == '.' {
            assert(has_char(path, '.'));
        }
    }
    crate::text::lemma_idx_of(path, '.', path.len() as int);
}

/// A class with no entry in namespace `ns` (or no class of that name at
/// all) restricts nothing there: every method of it is accessible, from
/// any class.
pub proof fn law_unknown_class_is_open(
    e: Seq<(String, Vec<ClassInfo>)>,
    class: Seq<char>,
    method: Seq<char>,
    ns: Seq<char>,
    current: Option<Seq<char>>,
)
    requires
        classes_named(e, class) matches Some(cs) ==> forall|k: int| 0 <= k < cs.len() ==> (#[trigger] cs[k]).namespace@ != ns,
    ensures
        accessible_spec(classes_named(e, class), class, method, ns, current),
{
    match classes_named(e, class) {
        Some(cs) => {
            lemma_first_in_ns(cs, ns);
        },
        None => {},
    }
}

/// A call resolves to the calling namespace whenever exactly one function
/// of that name is registered there: whatever other namespaces (the default
/// one included) also hold the name, and whatever the file imports.
pub proof fn law_current_namespace_first(reg: NamespaceRegistry, name: Seq<char>, file: Seq<char>, cur: Seq<char>)
    requires
        count_in_ns(items_of(reg.functions.entries@, name), cur) == 1,
    ensures
        resolve_imports_spec(reg, name, file, cur) == Ok::<Option<Seq<char>>, NamespaceErrorView>(Some(cur)),
        resolve_spec(funcs_named(reg.functions.entries@, name), name, cur, reg.default_space@) == Ok::<
            Option<Seq<char>>,
            NamespaceErrorView,
        >(Some(cur)),
{
    match lookup(reg.functions.entries@, name) {
        Some(v) => {
            assert(funcs_named(reg.functions.entries@, name) == Some(v@));
        },
        None => {
            assert(items_of(reg.functions.entries@, name) =~= Seq::<FunctionInfo>::empty());
        },
    }
}

/// `last_idx_of` is the last position of `c`.
proof fn lemma_last_idx_is(s: Seq<char>, c: char, k: int)
    requires
        0 <= k < s.len(),
        s[k] == c,
        forall|j: int| k < j < s.len() ==> s[j] != c,
    ensures
        last_idx_of(s, c) == k,
    decreases s.len(),
{
    if s.last() != c {
        assert(k < s.len() - 1);
        lemma_last_idx_is(s.drop_last(), c, k);
    }
}

/// There is a last position of `c` exactly when `c` occurs.
proof fn lemma_last_idx_found(s: Seq<char>, c: char)
    ensures
        (last_idx_of(s, c) >= 0) == has_char(s, c),
    decreases s.len(),
{
    if s.len() > 0 {
        lemma_last_idx_found(s.drop_last(), c);
        if s.last() != c {
            if has_char(s, c) {
                let i = choose|i: int| 0 <= i < s.len() && s[i] == c;
                assert(s.drop_last()[i] == c);
            }
            if has_char(s.drop_last(), c) {
                let i = choose|i: int| 0 <= i < s.drop_last().len() && s.drop_last()[i] == c;
                assert(s[i] == c);
            }
        } else {
            assert(s[s.len() - 1] == c);
        }
    }
}

/// `use ns.item;` with a flat, non-reserved namespace `ns` imports the one
/// item: the statement's target splits into namespace `ns` and item
/// `item`.
pub proof fn law_use_item_target(ns: Seq<char>, item: Seq<char>)
    requires
        ns.len() > 0,
        trim(ns) == ns,
        !has_char(ns, '.'),
        !is_reserved(ns),
        item.len() > 0,
        trim(item) == item,
        !has_char(item, '.'),
        item != "*"@,
    ensures
        split_use_target(ns + "."@ + item) == (ns, Some(item)),
{
    reveal_strlit(".");
    reveal_strlit("*");
    let p = ns + "."@ + item;
    let k = ns.len() as int;
    assert(p[k] == '.');
    assert forall|j: int| k < j < p.len() implies p[j] != '.' by {
        assert(p[j] == item[j - k - 1]);
        if p[j] == '.' {
            assert(has_char(item, '.'));
        }
    }
    lemma_last_idx_is(p, '.', k);
    if p.len() >= 2 && p[p.len() - 2] == '.' && p[p.len() - 1] == '*' {
        if item.len() == 1 {
            assert(item =~= "*"@);
        } else {
            assert(p[p.len() - 2] == item[item.len() - 2]);
            assert(has_char(item, '.'));
        }
    }
    assert(p.subrange(0, k) =~= ns);
    assert(p.subrange(k + 1, p.len() as int) =~= item);
}

/// Only `use ns;` and `use ns.*;` import a whole namespace: a target with a
/// `.` that does not end in `.*` always names one item.
pub proof fn law_whole_namespace_only(p: Seq<char>)
    ensures
        (split_use_target(p).1 is None) == (!has_char(p, '.') || (p.len() >= 2 && p[p.len() - 2] == '.' && p[p.len()
            - 1] == '*')),
{
    lemma_last_idx_found(p, '.');
}

/// With no function of that name in the calling namespace, exactly one in
/// the default namespace answers the call, whatever the file imports.
pub proof fn law_default_namespace_second(reg: NamespaceRegistry, name: Seq<char>, file: Seq<char>, cur: Seq<char>)
    requires
        count_in_ns(items_of(reg.functions.entries@, name), cur) == 0,
        count_in_ns(items_of(reg.functions.entries@, name), reg.default_space@) == 1,
    ensures
        resolve_imports_spec(reg, name, file, cur) == Ok::<Option<Seq<char>>, NamespaceErrorView>(Some(reg.default_space@)),
{
    match lookup(reg.functions.entries@, name) {
        Some(v) => {},
        None => {
            assert(items_of(reg.functions.entries@, name) =~= Seq::<FunctionInfo>::empty());
        },
    }
}

/// With no function of that name in the calling or the default namespace,
/// a use statement of the file importing it from a namespace that holds it
/// decides, before any other namespace; two functions of that name in the
/// calling namespace make the call ambiguous.
pub proof fn law_import_decides(reg: NamespaceRegistry, name: Seq<char>, file: Seq<char>, cur: Seq<char>, ns: Seq<char>)
    ensures
        (count_in_ns(items_of(reg.functions.entries@, name), cur) == 0 && count_in_ns(
            items_of(reg.functions.entries@, name),
            reg.default_space@,
        ) == 0 && import_hit(reg, name, file) == Some(ns)) ==> resolve_imports_spec(reg, name, file, cur) == Ok::<
            Option<Seq<char>>,
            NamespaceErrorView,
        >(Some(ns)),
        count_in_ns(items_of(reg.functions.entries@, name), cur) > 1 ==> resolve_imports_spec(reg, name, file, cur)
            == Err::<Option<Seq<char>>, NamespaceErrorView>(NamespaceErrorView::AmbiguousCall(name)),
{
    match lookup(reg.functions.entries@, name) {
        Some(v) => {},
        None => {
            assert(items_of(reg.functions.entries@, name) =~= Seq::<FunctionInfo>::empty());
            if import_hit(reg, name, file) is Some {
                match lookup(reg.use_statements.entries@, file) {
                    Some(us) => {
                        lemma_import_match_none(us@, name);
                    },
                    None => {},
                }
            }
        },
    }
}

proof fn lemma_import_match_none(us: Seq<UseStmt>, name: Seq<char>)
    ensures
        import_match(us, name, None) is None,
    decreases us.len(),
{
    if us.len() > 0 {
        lemma_import_match_none(us.drop_first(), name);
    }
}

/// `use ns;` and `use ns.*;` import the whole of namespace `ns`; a reserved
/// (system) prefix keeps the whole dotted path as the namespace.
pub proof fn law_use_namespace_target(ns: Seq<char>, item: Seq<char>)
    requires
        trim(ns) == ns,
        !has_char(ns, '.'),
    ensures
        split_use_target(ns) == (ns, None::<Seq<char>>),
        split_use_target(ns + ".*"@) == (ns, None::<Seq<char>>),
        (is_reserved(ns) && item.len() > 0 && trim(item) == item && !has_char(item, '.') && item != "*"@ && ns.len() > 0
            && trim(ns + "."@ + item) == ns + "."@ + item) ==> split_use_target(ns + "."@ + item) == (ns + "."@ + item,
            Some(item)),
{
    reveal_strlit(".*");
    reveal_strlit(".");
    reveal_strlit("*");
    lemma_last_idx_found(ns, '.');
    if ns.len() >= 2 && ns[ns.len() - 2] == '.' && ns[ns.len() - 1] == '*' {
        assert(has_char(ns, '.'));
    }
    let q = ns + ".*"@;
    assert(q.subrange(0, q.len() - 2) =~= ns);
    if is_reserved(ns) && item.len() > 0 && trim(item) == item && !has_char(item, '.') && item != "*"@ && ns.len() > 0 {
        let p = ns + "."@ + item;
        let k = ns.len() as int;
        assert(p[k] == '.');
        assert forall|j: int| k < j < p.len() implies p[j] != '.' by {
            assert(p[j] == item[j - k - 1]);
            if p[j] == '.' {
                assert(has_char(item, '.'));
            }
        }
        lemma_last_idx_is(p, '.', k);
        if p.len() >= 2 && p[p.len() - 2] == '.' && p[p.len() - 1] == '*' {
            if item.len() == 1 {
                assert(item =~= "*"@);
            } else {
                assert(p[p.len() - 2] == item[item.len() - 2]);
                assert(has_char(item, '.'));
            }
        }
        assert(p.subrange(0, k) =~= ns);
        assert(p.subrange(k + 1, p.len() as int) =~= item);
    }
}

} // verus!
