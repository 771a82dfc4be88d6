//! Translation of a whole project: every module's namespace declaration and
//! `use` lines read into a registry, each module translated, and calls
//! across namespaces checked and resolved in the joined text.
use vstd::prelude::*;
use crate::namespace::{
    decl_scan, use_scan, ns_error_text, is_reserved, resolve_imports_spec, uses_view, ClassInfo, FunctionInfo,
    NamespaceRegistry, UseStmt,
};
use crate::pattern::{
    escaped, grp, groups_view, has_grp, matches_view, regex_error, regex_escape, regex_scan, regex_search,
    regex_valid, replace_all_const, replace_const, splice, splice_texts, strings, group, has_group,
};
use crate::project::Module;
use crate::table::{items_of, lookup, str_eq, StrMap};
use crate::text::{append_vec, chars_of, find, lines, occurs_at, push_str, remove_first, string_of, vviews};
use crate::translator::{
    mark_rule, result_view, rule_transpile, Translator, TranspileError, TranspileErrorView, group1s, join,
};

verus! {

/// Where `p` occurs in `s` at `i`, it occurs somewhere first.
proof fn lemma_first_occurrence(s: Seq<char>, p: Seq<char>, i: int)
    requires
        occurs_at(s, p, i),
    ensures
        exists|k: int| occurs_at(s, p, k) && forall|j: int| 0 <= j < k ==> !occurs_at(s, p, j),
    decreases i,
{
    if exists|j: int| 0 <= j < i && occurs_at(s, p, j) {
        let j = choose|j: int| 0 <= j < i && occurs_at(s, p, j);
        lemma_first_occurrence(s, p, j);
    } else {
        assert(forall|j: int| 0 <= j < i ==> !occurs_at(s, p, j));
    }
}

/// `str::replacen(p, "", 1)` never makes a text longer.
proof fn lemma_remove_first_len(s: Seq<char>, p: Seq<char>)
    ensures
        remove_first(s, p).len() <= s.len(),
{
    reveal(find);
    if exists|i: int| occurs_at(s, p, i) {
        let i = choose|i: int| occurs_at(s, p, i);
        lemma_first_occurrence(s, p, i);
        let k = choose|k: int| occurs_at(s, p, k) && forall|j: int| 0 <= j < k ==> !occurs_at(s, p, j);
        assert(occurs_at(s, p, k));
    }
}

proof fn lemma_decl_scan_len(ls: Seq<Seq<char>>, found: Option<Seq<char>>, rem: Seq<char>, file: Seq<char>)
    ensures
        decl_scan(ls, found, rem, file).0 matches Ok((o, r)) ==> r.len() <= rem.len(),
    decreases ls.len(),
{
    if ls.len() > 0 {
        lemma_decl_scan_len(ls.drop_first(), found, rem, file);
        lemma_remove_first_len(rem, ls[0]);
        lemma_decl_scan_len(ls.drop_first(), Some(crate::namespace::decl_name(crate::text::trim(ls[0]))), remove_first(rem, ls[0]), file);
    }
}

proof fn lemma_use_scan_len(ls: Seq<Seq<char>>, acc: Seq<(Seq<char>, Option<Seq<char>>, Option<Seq<char>>)>, rem: Seq<char>)
    ensures
        use_scan(ls, acc, rem).1.len() <= rem.len(),
    decreases ls.len(),
{
    if ls.len() > 0 {
        let t = crate::text::trim(ls[0]);
        match crate::namespace::parse_use(t) {
            Some(u) => {
                let rem1 = remove_first(rem, crate::text::with_nl(t));
                lemma_remove_first_len(rem, crate::text::with_nl(t));
                lemma_remove_first_len(rem1, t);
                let rem2 = if crate::text::contains(rem1, t) {
                    remove_first(rem1, t)
                } else {
                    rem1
                };
                lemma_use_scan_len(ls.drop_first(), acc.push(u), rem2);
            },
            None => {
                lemma_use_scan_len(ls.drop_first(), acc, rem);
            },
        }
    }
}

/// The pattern of a function definition, as the registry reads it.
pub open spec fn fn_decl_pat() -> Seq<char> {
    r"(?m)^\s*(public\s+)?\b(void|i8|i16|i32|i64|u8|u16|u32|u64|f32|f64|bool|char|String)\s+([a-zA-Z_][a-zA-Z0-9_]*)\s*\(([^)]*)\)\s*\{"@
}

/// The pattern of a class header with its parent.
pub open spec fn class_decl_pat() -> Seq<char> {
    r"(?m)^\s*class\s+([a-zA-Z_][a-zA-Z0-9_]*)(?:\s+extends\s+([a-zA-Z_][a-zA-Z0-9_]*))?"@
}

/// The pattern of a reference `Class.Inner`.
pub open spec fn nested_ref_pat(class: Seq<char>) -> Seq<char> {
    class + r"\.([a-zA-Z_][a-zA-Z0-9_]*)"@
}

/// The first of the first `k` classes `m` whose nested-reference pattern is
/// refused, as that pattern's error.
pub open spec fn nested_error(m: Seq<Seq<Option<Seq<char>>>>, k: int) -> Option<Seq<char>>
    decreases k,
{
    if k <= 0 {
        None
    } else {
        match nested_error(m, k - 1) {
            Some(e) => Some(e),
            None => if !regex_valid(nested_ref_pat(grp(m[k - 1], 1))) {
                Some(regex_error(nested_ref_pat(grp(m[k - 1], 1))))
            } else {
                None
            },
        }
    }
}

/// What registering one module leaves to translate: its text without the
/// namespace declaration and `use` lines; the error when the declaration is
/// refused or a pattern is.
pub open spec fn module_text(src: Seq<char>, path: Seq<char>) -> Result<Seq<char>, TranspileErrorView> {
    match decl_scan(lines(src), None, src, path).0 {
        Err(e) => Err(TranspileErrorView::TransformError(ns_error_text(e))),
        Ok((nso, after)) => {
            let rem = use_scan(lines(after), Seq::empty(), after).1;
            if !regex_valid(fn_decl_pat()) {
                Err(TranspileErrorView::TransformError(regex_error(fn_decl_pat())))
            } else if !regex_valid(class_decl_pat()) {
                Err(TranspileErrorView::TransformError(regex_error(class_decl_pat())))
            } else {
                match regex_scan(class_decl_pat(), rem) {
                    Some((g, m)) => match nested_error(m, m.len() as int) {
                        Some(e) => Err(TranspileErrorView::TransformError(e)),
                        None => Ok(rem),
                    },
                    None => Ok(rem),
                }
            }
        },
    }
}

/// The content of a module: name, source, path.
pub open spec fn module_view(m: Module) -> (Seq<char>, Seq<char>, Seq<char>) {
    (m.name@, m.source@, m.path@)
}

/// For the first `k` modules: each name with its text left to translate
/// and its path; the first module's error.
pub open spec fn module_texts(ms: Seq<(Seq<char>, Seq<char>, Seq<char>)>, k: int) -> Result<Seq<(Seq<char>, Seq<char>, Seq<char>)>, TranspileErrorView>
    decreases k,
{
    if k <= 0 {
        Ok(Seq::empty())
    } else {
        match module_texts(ms, k - 1) {
            Err(e) => Err(e),
            Ok(prev) => match module_text(ms[k - 1].1, ms[k - 1].2) {
                Err(e) => Err(e),
                Ok(rem) => Ok(prev.push((ms[k - 1].0, rem, ms[k - 1].2))),
            },
        }
    }
}

proof fn lemma_module_texts_err(ms: Seq<(Seq<char>, Seq<char>, Seq<char>)>, k: int, n: int)
    requires
        0 <= k <= n,
        module_texts(ms, k) is Err,
    ensures
        module_texts(ms, n) == module_texts(ms, k),
    decreases n - k,
{
    if k < n {
        lemma_module_texts_err(ms, k, n - 1);
    }
}

/// The translated sections of the first `k` modules other than `entry`:
/// a heading and the translation each; the first error.
pub open spec fn sections(ts: Seq<(Seq<char>, Seq<char>, Seq<char>)>, entry: Seq<char>, k: int) -> Result<Seq<char>, TranspileErrorView>
    decreases k,
{
    if k <= 0 {
        Ok(Seq::empty())
    } else {
        match sections(ts, entry, k - 1) {
            Err(e) => Err(e),
            Ok(prev) => if ts[k - 1].0 == entry {
                Ok(prev)
            } else {
                match rule_transpile(ts[k - 1].1) {
                    Err(e) => Err(e),
                    Ok(t) => Ok(prev + "// Module: "@ + ts[k - 1].0 + "\n"@ + t + "\n\n"@),
                }
            },
        }
    }
}

proof fn lemma_sections_err(ts: Seq<(Seq<char>, Seq<char>, Seq<char>)>, entry: Seq<char>, k: int, n: int)
    requires
        0 <= k <= n,
        sections(ts, entry, k) is Err,
    ensures
        sections(ts, entry, n) == sections(ts, entry, k),
    decreases n - k,
{
    if k < n {
        lemma_sections_err(ts, entry, k, n - 1);
    }
}

/// The first module named `name`, by position.
pub open spec fn first_named(ts: Seq<(Seq<char>, Seq<char>, Seq<char>)>, name: Seq<char>, k: int) -> Option<int>
    decreases ts.len() - k,
{
    if k < 0 || k >= ts.len() {
        None
    } else if ts[k].0 == name {
        Some(k)
    } else {
        first_named(ts, name, k + 1)
    }
}

/// The heading of the joined translation.
pub open spec fn modules_header() -> Seq<char> {
    "// Generated by Hust transpiler\n// Multi-module compilation with namespace support\n\n"@
}

/// The joined translation: the heading, each other module's section, then
/// the entry module's (its registered text, or its own source when it was
/// not among the modules).
pub open spec fn joined(ts: Seq<(Seq<char>, Seq<char>, Seq<char>)>, entry: Seq<char>, entry_src: Seq<char>) -> Result<Seq<char>, TranspileErrorView> {
    match sections(ts, entry, ts.len() as int) {
        Err(e) => Err(e),
        Ok(secs) => {
            let es = match first_named(ts, entry, 0) {
                Some(i) => ts[i].1,
                None => entry_src,
            };
            match rule_transpile(es) {
                Err(e) => Err(e),
                Ok(t) => Ok(modules_header() + secs + "// Entry module: "@ + entry + "\n"@ + t),
            }
        },
    }
}

/// The content of a list of module texts.
pub open spec fn texts_view(v: Seq<(String, String, String)>) -> Seq<(Seq<char>, Seq<char>, Seq<char>)> {
    v.map_values(|p: (String, String, String)| (p.0@, p.1@, p.2@))
}

/// A registered function, by content: name, namespace, whether public,
/// parameters and return type.
pub open spec fn fn_info_view(f: FunctionInfo) -> (Seq<char>, Seq<char>, bool, Seq<char>, Seq<char>) {
    (f.name@, f.namespace@, f.is_public, f.params@, f.ret_type@)
}

/// Registered functions, by content.
pub open spec fn infos_view(fs: Seq<FunctionInfo>) -> Seq<(Seq<char>, Seq<char>, bool, Seq<char>, Seq<char>)> {
    fs.map_values(|f: FunctionInfo| fn_info_view(f))
}

/// The namespace that module text `src` at `path` declares, or `default`.
pub open spec fn declared_ns(src: Seq<char>, path: Seq<char>) -> Seq<char> {
    match decl_scan(lines(src), None, src, path).0 {
        Ok((Some(n), _)) => n,
        _ => "default"@,
    }
}

/// The function that one match of [`fn_decl_pat`] defines in namespace
/// `ns`: public when the `public` group took part.
pub open spec fn fn_of_match(c: Seq<Option<Seq<char>>>, ns: Seq<char>) -> (Seq<char>, Seq<char>, bool, Seq<char>, Seq<char>) {
    (grp(c, 3), ns, has_grp(c, 1), grp(c, 4), grp(c, 2))
}

/// The functions that matches `m` define in namespace `ns`.
pub open spec fn fns_of_matches(m: Seq<Seq<Option<Seq<char>>>>, ns: Seq<char>) -> Seq<(Seq<char>, Seq<char>, bool, Seq<char>, Seq<char>)> {
    m.map_values(|c: Seq<Option<Seq<char>>>| fn_of_match(c, ns))
}

/// The functions module text `src` at `path` defines, in order: the
/// definitions found in what is left of it once its declaration and `use`
/// lines are read.
pub open spec fn module_fns(src: Seq<char>, path: Seq<char>) -> Seq<(Seq<char>, Seq<char>, bool, Seq<char>, Seq<char>)> {
    match module_text(src, path) {
        Ok(rem) => match regex_scan(fn_decl_pat(), rem) {
            Some((g, m)) => fns_of_matches(m, declared_ns(src, path)),
            None => Seq::empty(),
        },
        Err(_) => Seq::empty(),
    }
}

/// Those of functions `fs` named `q`, in order.
pub open spec fn named(fs: Seq<(Seq<char>, Seq<char>, bool, Seq<char>, Seq<char>)>, q: Seq<char>) -> Seq<(Seq<char>, Seq<char>, bool, Seq<char>, Seq<char>)>
    decreases fs.len(),
{
    if fs.len() == 0 {
        Seq::empty()
    } else if fs.last().0 == q {
        named(fs.drop_last(), q).push(fs.last())
    } else {
        named(fs.drop_last(), q)
    }
}

/// The functions named `q` that the first `k` modules `ms` define, in order.
pub open spec fn built_fns(ms: Seq<(Seq<char>, Seq<char>, Seq<char>)>, k: int, q: Seq<char>) -> Seq<(Seq<char>, Seq<char>, bool, Seq<char>, Seq<char>)>
    decreases k,
{
    if k <= 0 || k > ms.len() {
        Seq::empty()
    } else {
        built_fns(ms, k - 1, q) + named(module_fns(ms[k - 1].1, ms[k - 1].2), q)
    }
}

/// The text of module `src` at `path` after its namespace declaration.
pub open spec fn decl_after(src: Seq<char>, path: Seq<char>) -> Seq<char> {
    match decl_scan(lines(src), None, src, path).0 {
        Ok((_, a)) => a,
        Err(_) => Seq::empty(),
    }
}

/// The `use` statements recorded for file `q` once the first `k` modules
/// `ms` are read: those of the last module at that path.
pub open spec fn built_uses(ms: Seq<(Seq<char>, Seq<char>, Seq<char>)>, k: int, q: Seq<char>) -> Option<Seq<(Seq<char>, Option<Seq<char>>, Option<Seq<char>>)>>
    decreases k,
{
    if k <= 0 || k > ms.len() {
        None
    } else if ms[k - 1].2 == q {
        Some(use_scan(lines(decl_after(ms[k - 1].1, q)), Seq::empty(), decl_after(ms[k - 1].1, q)).0)
    } else {
        built_uses(ms, k - 1, q)
    }
}

/// Registry `reg` holds the functions and `use` statements of the first `k`
/// modules `ms`: under each name exactly the functions of that name they
/// define, in order, and for each file its `use` statements.
pub open spec fn registry_built(reg: NamespaceRegistry, ms: Seq<(Seq<char>, Seq<char>, Seq<char>)>, k: int) -> bool {
    &&& forall|q: Seq<char>|
        #![trigger items_of(reg.functions.entries@, q)]
        infos_view(items_of(reg.functions.entries@, q)) == built_fns(ms, k, q)
    &&& forall|q: Seq<char>|
        #![trigger reg.functions.spec_get(q)]
        (reg.functions.spec_get(q) is Some) == (built_fns(ms, k, q).len() > 0)
    &&& forall|q: Seq<char>|
        #![trigger reg.use_statements.spec_get(q)]
        match reg.use_statements.spec_get(q) {
            Some(v) => built_uses(ms, k, q) == Some(uses_view(v@)),
            None => built_uses(ms, k, q) is None,
        }
}

/// Register one module (its declaration, `use` lines, functions and
/// classes) and give back what is left of it to translate.
fn register_module(reg: &mut NamespaceRegistry, m: &Module) -> (r: Result<String, TranspileError>)
    requires
        old(reg).wf(),
        old(reg).default_space@ == "default"@,
    ensures
        final(reg).wf(),
        final(reg).default_space == old(reg).default_space,
        match r {
            Ok(rem) => module_text(m.source@, m.path@) == Ok::<Seq<char>, TranspileErrorView>(rem@),
            Err(e) => module_text(m.source@, m.path@) == Err::<Seq<char>, TranspileErrorView>(e@),
        },
        r is Ok ==> {
            &&& forall|q: Seq<char>|
                #![trigger items_of(final(reg).functions.entries@, q)]
                infos_view(items_of(final(reg).functions.entries@, q)) == infos_view(items_of(old(reg).functions.entries@, q))
                    + named(module_fns(m.source@, m.path@), q)
            &&& forall|q: Seq<char>|
                #![trigger final(reg).functions.spec_get(q)]
                (final(reg).functions.spec_get(q) is Some) == (old(reg).functions.spec_get(q) is Some
                    || named(module_fns(m.source@, m.path@), q).len() > 0)
            &&& final(reg).use_statements.spec_get(m.path@) matches Some(v) && uses_view(v@) == use_scan(
                lines(decl_after(m.source@, m.path@)),
                Seq::empty(),
                decl_after(m.source@, m.path@),
            ).0
            &&& forall|q: Seq<char>|
                #![trigger final(reg).use_statements.spec_get(q)]
                q != m.path@ ==> final(reg).use_statements.spec_get(q) == old(reg).use_statements.spec_get(q)
        },
{
    let file_path = m.path.as_str();
    let (ns, after_ns) = match reg.parse_declaration(m.source.as_str(), file_path) {
        Ok(x) => x,
        Err(e) => {
            return Err(TranspileError::TransformError(e.message()));
        },
    };
    let ghost ns_opt_view = ns.deep_view();
    let ns_name: String = match ns {
        Some(n) => n,
        None => string_of(&chars_of(reg.default_space.as_str())),
    };
    assert(ns_name@ == declared_ns(m.source@, m.path@));
    assert(after_ns@ == decl_after(m.source@, m.path@));
    let (_uses, remaining) = reg.parse_use_statements(after_ns.as_str(), file_path);
    let ghost f0 = reg.functions;
    let ghost u0 = reg.use_statements;
    assert(f0 == old(reg).functions);
    let (_g, fms) = match regex_search(r"(?m)^\s*(public\s+)?\b(void|i8|i16|i32|i64|u8|u16|u32|u64|f32|f64|bool|char|String)\s+([a-zA-Z_][a-zA-Z0-9_]*)\s*\(([^)]*)\)\s*\{", remaining.as_str()) {
        Ok(x) => x,
        Err(e) => {
            return Err(TranspileError::TransformError(e));
        },
    };
    let ghost fv = fns_of_matches(matches_view(fms@), ns_name@);
    assert(fv.subrange(0, 0) =~= Seq::empty());
    let mut i: usize = 0;
    while i < fms.len()
        invariant
            0 <= i <= fms.len(),
            reg.wf(),
            reg.default_space == old(reg).default_space,
            reg.use_statements == u0,
            fv == fns_of_matches(matches_view(fms@), ns_name@),
            forall|q: Seq<char>|
                #![trigger items_of(reg.functions.entries@, q)]
                infos_view(items_of(reg.functions.entries@, q)) == infos_view(items_of(f0.entries@, q))
                    + named(fv.subrange(0, i as int), q),
            forall|q: Seq<char>|
                #![trigger reg.functions.spec_get(q)]
                (reg.functions.spec_get(q) is Some) == (f0.spec_get(q) is Some
                    || named(fv.subrange(0, i as int), q).len() > 0),
        decreases fms.len() - i,
    {
        let c = &fms[i];
        let func = FunctionInfo {
            name: string_of(&group(c, 3)),
            namespace: string_of(&chars_of(ns_name.as_str())),
            is_public: has_group(c, 1),
            params: string_of(&group(c, 4)),
            ret_type: string_of(&group(c, 2)),
        };
        let ghost fw = func;
        let ghost r0 = reg.functions;
        proof {
            assert(matches_view(fms@)[i as int] == groups_view(fms@[i as int]));
            assert(fv[i as int] == fn_info_view(fw));
            assert(fv.subrange(0, i + 1).drop_last() =~= fv.subrange(0, i as int));
            assert(fv.subrange(0, i + 1).last() == fv[i as int]);
        }
        reg.register_function(func);
        proof {
            assert forall|q: Seq<char>| #[trigger] infos_view(items_of(reg.functions.entries@, q)) == infos_view(items_of(f0.entries@, q))
                + named(fv.subrange(0, i + 1), q) by {
                if q == fw.name@ {
                    assert(items_of(reg.functions.entries@, q) == items_of(r0.entries@, q).push(fw));
                    assert(infos_view(items_of(r0.entries@, q).push(fw)) =~= infos_view(items_of(r0.entries@, q)).push(fn_info_view(fw)));
                    assert(infos_view(items_of(f0.entries@, q)) + named(fv.subrange(0, i as int), q).push(fv[i as int])
                        =~= (infos_view(items_of(f0.entries@, q)) + named(fv.subrange(0, i as int), q)).push(fv[i as int]));
                } else {
                    assert(items_of(reg.functions.entries@, q) == items_of(r0.entries@, q));
                }
            }
            assert forall|q: Seq<char>| #[trigger] reg.functions.spec_get(q) is Some == (f0.spec_get(q) is Some
                || named(fv.subrange(0, i + 1), q).len() > 0) by {
                assert(r0.spec_get(q) is Some == (f0.spec_get(q) is Some || named(fv.subrange(0, i as int), q).len() > 0));
            }
        }
        i = i + 1;
    }
    assert(fv.subrange(0, fms@.len() as int) =~= fv);
    let ghost f1 = reg.functions;
    let (_g2, cms) = match regex_search(r"(?m)^\s*class\s+([a-zA-Z_][a-zA-Z0-9_]*)(?:\s+extends\s+([a-zA-Z_][a-zA-Z0-9_]*))?", remaining.as_str()) {
        Ok(x) => x,
        Err(e) => {
            return Err(TranspileError::TransformError(e));
        },
    };
    let ghost cmv = matches_view(cms@);
    let ghost rv = remaining@;
    assert(decl_scan(lines(m.source@), None, m.source@, m.path@).0 == Ok::<(Option<Seq<char>>, Seq<char>), crate::namespace::NamespaceErrorView>((ns_opt_view, after_ns@)));
    let mut k: usize = 0;
    while k < cms.len()
        invariant
            0 <= k <= cms.len(),
            cmv == matches_view(cms@),
            rv == remaining@,
            decl_scan(lines(m.source@), None, m.source@, m.path@).0 == Ok::<(Option<Seq<char>>, Seq<char>), crate::namespace::NamespaceErrorView>((ns_opt_view, after_ns@)),
            rv == use_scan(lines(after_ns@), Seq::empty(), after_ns@).1,
            regex_valid(fn_decl_pat()),
            regex_valid(class_decl_pat()),
            regex_scan(class_decl_pat(), rv) == Some((strings(_g2@), cmv)),
            nested_error(cmv, k as int) is None,
            reg.wf(),
            reg.default_space == old(reg).default_space,
            reg.functions == f1,
            reg.use_statements == u0,
        decreases cms.len() - k,
    {
        assert(cmv[k as int] == groups_view(cms@[k as int]));
        let c = &cms[k];
        let class_name = group(c, 1);
        let mut pat = class_name.clone();
        push_str(&mut pat, r"\.([a-zA-Z_][a-zA-Z0-9_]*)");
        assert(pat@ == nested_ref_pat(grp(cmv[k as int], 1)));
        let (_g3, nms) = match regex_search(string_of(&pat).as_str(), remaining.as_str()) {
            Ok(x) => x,
            Err(e) => {
                proof {
                    lemma_nested_error_stays(cmv, k + 1, cmv.len() as int);
                }
                return Err(TranspileError::TransformError(e));
            },
        };
        let mut nested: StrMap<String> = StrMap::new();
        let mut q: usize = 0;
        while q < nms.len()
            invariant
                0 <= q <= nms.len(),
            decreases nms.len() - q,
        {
            let inner = group(&nms[q], 1);
            let mut full = class_name.clone();
            full.push('.');
            append_vec(&mut full, &inner);
            nested.insert(string_of(&inner), string_of(&full));
            q = q + 1;
        }
        let parent: Option<String> = if has_group(c, 2) {
            Some(string_of(&group(c, 2)))
        } else {
            None
        };
        let cname = string_of(&class_name);
        reg.register_class(ClassInfo {
            name: string_of(&class_name),
            namespace: string_of(&chars_of(ns_name.as_str())),
            is_public: true,
            parent: match &parent {
                Some(p) => Some(string_of(&chars_of(p.as_str()))),
                None => None,
            },
            nested,
            methods: StrMap::new(),
        });
        match &parent {
            Some(p) => {
                reg.apply_inheritance(cname.as_str(), p.as_str(), ns_name.as_str());
            },
            None => {},
        }
        k = k + 1;
    }
    proof {
        assert(regex_scan(fn_decl_pat(), remaining@) == Some((strings(_g@), matches_view(fms@))));
        assert(module_fns(m.source@, m.path@) == fv);
    }
    Ok(remaining)
}

proof fn lemma_nested_error_stays(m: Seq<Seq<Option<Seq<char>>>>, k: int, n: int)
    requires
        0 <= k <= n,
        nested_error(m, k) is Some,
    ensures
        nested_error(m, n) == nested_error(m, k),
    decreases n - k,
{
    if k < n {
        lemma_nested_error_stays(m, k, n - 1);
    }
}


/// `map` (name -> namespaces) with namespace `ns` added under `name`,
/// as `entry(name).or_insert_with(Vec::new).push(ns)` does.
pub open spec fn push_ns(map: Seq<(Seq<char>, Seq<Seq<char>>)>, name: Seq<char>, ns: Seq<char>) -> Seq<(Seq<char>, Seq<Seq<char>>)> {
    match crate::translator::first_key(map, name) {
        Some(i) => map.update(i, (name, map[i].1.push(ns))),
        None => map.push((name, seq![ns])),
    }
}

/// `map` after the namespaces of the first `k` functions `fs`.
pub open spec fn push_fns(map: Seq<(Seq<char>, Seq<Seq<char>>)>, fs: Seq<FunctionInfo>, k: int) -> Seq<(Seq<char>, Seq<Seq<char>>)>
    decreases k,
{
    if k <= 0 {
        map
    } else {
        push_ns(push_fns(map, fs, k - 1), fs[k - 1].name@, fs[k - 1].namespace@)
    }
}

/// Function name -> the namespaces defining it, for the first `k` entries
/// of the function table.
pub open spec fn fn_ns_map(fe: Seq<(String, Vec<FunctionInfo>)>, k: int) -> Seq<(Seq<char>, Seq<Seq<char>>)>
    decreases k,
{
    if k <= 0 {
        Seq::empty()
    } else {
        push_fns(fn_ns_map(fe, k - 1), fe[k - 1].1@, fe[k - 1].1@.len() as int)
    }
}

/// The message of a call that several namespaces could answer.
pub open spec fn ambiguous_msg(name: Seq<char>, nss: Seq<Seq<char>>) -> Seq<char> {
    "Error: ambiguous function call '"@ + name + "'\nFound in multiple namespaces: "@ + join(nss, ", "@)
        + "\nHelp: use explicit namespace prefix, e.g., "@ + nss[0] + "."@ + name + "(...)"@
}

/// The message of a call of a private function from outside its namespace.
pub open spec fn private_msg(name: Seq<char>, ns: Seq<char>) -> Seq<char> {
    "Error: function '"@ + name + "' is private in namespace '"@ + ns
        + "'\nHelp: remove 'public' keyword from function definition to make it private,\nor call it from within the same namespace."@
}

/// The pattern of a bare call of `name` in module text.
pub open spec fn bare_call_pat(name: Seq<char>) -> Seq<char> {
    r"(^|[^.\w])"@ + escaped(name) + r"\s*\("@
}

/// The pattern of an unprefixed call of `name` in translated text.
pub open spec fn unprefixed_call_pat(name: Seq<char>) -> Seq<char> {
    r"(?<![.\w])"@ + escaped(name) + r"\s*\("@
}

/// `pat` is accepted and matches `s`.
pub open spec fn finds(pat: Seq<char>, s: Seq<char>) -> bool {
    regex_scan(pat, s) matches Some((g, m)) && m.len() > 0
}

/// Some of the first `k` module texts calls `name` bare.
pub open spec fn called_in_sources(ts: Seq<(Seq<char>, Seq<char>, Seq<char>)>, name: Seq<char>, k: int) -> bool
    decreases k,
{
    if k <= 0 {
        false
    } else {
        called_in_sources(ts, name, k - 1) || finds(bare_call_pat(name), ts[k - 1].1)
    }
}

/// The first of the first `k` names of `fm` defined in several namespaces
/// and called: in the module texts `ts` (`in_sources`), else in `s`.
pub open spec fn first_conflict(fm: Seq<(Seq<char>, Seq<Seq<char>>)>, ts: Seq<(Seq<char>, Seq<char>, Seq<char>)>, s: Seq<char>, in_sources: bool, k: int) -> Option<Seq<char>>
    decreases k,
{
    if k <= 0 {
        None
    } else {
        match first_conflict(fm, ts, s, in_sources, k - 1) {
            Some(m) => Some(m),
            None => {
                let name = fm[k - 1].0;
                let nss = fm[k - 1].1;
                if nss.len() > 1 && (if in_sources {
                    called_in_sources(ts, name, ts.len() as int)
                } else {
                    finds(unprefixed_call_pat(name), s)
                }) {
                    Some(ambiguous_msg(name, nss))
                } else {
                    None
                }
            },
        }
    }
}

/// Bare calls of the first `k` registered functions prefixed with the
/// namespace the entry file resolves them to (when not the default one).
pub open spec fn resolve_pass(reg: NamespaceRegistry, file: Seq<char>, s: Seq<char>, k: int) -> Seq<char>
    decreases k,
{
    if k <= 0 {
        s
    } else {
        let s1 = resolve_pass(reg, file, s, k - 1);
        let name = reg.functions.entries@[k - 1].0@;
        if name == "main"@ {
            s1
        } else {
            match resolve_imports_spec(reg, name, file, reg.default_space@) {
                Ok(Some(ns)) => if ns != reg.default_space@ {
                    replace_const(unprefixed_call_pat(name), s1, ns + "::"@ + name + "("@)
                } else {
                    s1
                },
                _ => s1,
            }
        }
    }
}

/// The pattern of a call through alias `a`.
pub open spec fn alias_call_pat(a: Seq<char>) -> Seq<char> {
    escaped(a) + r"\.(\w+)\s*\("@
}

/// Calls through the aliases of the first `k` use statements `us` made
/// bare.
pub open spec fn alias_pass(us: Seq<UseStmt>, s: Seq<char>, k: int) -> Seq<char>
    decreases k,
{
    if k <= 0 {
        s
    } else {
        let s1 = alias_pass(us, s, k - 1);
        match us[k - 1].alias {
            Some(a) => crate::translator::replace_g1(alias_call_pat(a@), s1, "("@),
            None => s1,
        }
    }
}

/// The functions of the table, in order.
pub open spec fn all_functions(fe: Seq<(String, Vec<FunctionInfo>)>, k: int) -> Seq<FunctionInfo>
    decreases k,
{
    if k <= 0 {
        Seq::empty()
    } else {
        all_functions(fe, k - 1) + fe[k - 1].1@
    }
}

/// The pattern of a call `ns.name`.
pub open spec fn ns_call_pat(ns: Seq<char>, name: Seq<char>) -> Seq<char> {
    escaped(ns) + r"\."@ + escaped(name)
}

/// Calls `ns.f` of the first `k` functions `fs` of namespace `ns` made
/// bare; a private one so called is an error.
pub open spec fn ns_calls(ns: Seq<char>, fs: Seq<(Seq<char>, Seq<char>, bool)>, s: Seq<char>, k: int) -> Result<Seq<char>, Seq<char>>
    decreases k,
{
    if k <= 0 {
        Ok(s)
    } else {
        match ns_calls(ns, fs, s, k - 1) {
            Err(e) => Err(e),
            Ok(s1) => {
                let (name, fns, public) = fs[k - 1];
                if fns != ns || !finds(ns_call_pat(ns, name), s1) {
                    Ok(s1)
                } else if !public {
                    Err(private_msg(name, ns))
                } else {
                    Ok(replace_const(ns_call_pat(ns, name), s1, name))
                }
            },
        }
    }
}

/// The name, namespace and visibility of each function.
pub open spec fn fns_view(fs: Seq<FunctionInfo>) -> Seq<(Seq<char>, Seq<char>, bool)> {
    fs.map_values(|f: FunctionInfo| (f.name@, f.namespace@, f.is_public))
}

/// [`ns_calls`] for the first `k` namespaces of the registry, system and
/// reserved ones skipped.
pub open spec fn ns_pass(reg: NamespaceRegistry, s: Seq<char>, k: int) -> Result<Seq<char>, Seq<char>>
    decreases k,
{
    if k <= 0 {
        Ok(s)
    } else {
        match ns_pass(reg, s, k - 1) {
            Err(e) => Err(e),
            Ok(s1) => {
                let ns = reg.spaces.entries@[k - 1].0@;
                if ns == "RUST"@ || ns == "HUST"@ || is_reserved(ns) {
                    Ok(s1)
                } else {
                    let fs = fns_view(all_functions(reg.functions.entries@, reg.functions.entries@.len() as int));
                    ns_calls(ns, fs, s1, fs.len() as int)
                }
            },
        }
    }
}

/// The path of the entry module among the registered texts, or nothing.
pub open spec fn entry_file(ts: Seq<(Seq<char>, Seq<char>, Seq<char>)>, entry: Seq<char>) -> Seq<char> {
    match first_named(ts, entry, 0) {
        Some(i) => ts[i].2,
        None => Seq::empty(),
    }
}

/// The use statements registered for file `f`.
pub open spec fn uses_of(reg: NamespaceRegistry, f: Seq<char>) -> Seq<UseStmt> {
    match lookup(reg.use_statements.entries@, f) {
        Some(v) => v@,
        None => Seq::empty(),
    }
}

/// The joined translation `j` checked and resolved against registry `reg`:
/// ambiguous calls in the module texts refused, bare calls prefixed, alias
/// calls made bare, `ns.f` calls made bare (a private `f` refused), and
/// ambiguous calls left in the result refused.
pub open spec fn resolved(reg: NamespaceRegistry, ts: Seq<(Seq<char>, Seq<char>, Seq<char>)>, entry: Seq<char>, j: Seq<char>) -> Result<Seq<char>, TranspileErrorView> {
    let fm = fn_ns_map(reg.functions.entries@, reg.functions.entries@.len() as int);
    match first_conflict(fm, ts, j, true, fm.len() as int) {
        Some(msg) => Err(TranspileErrorView::TransformError(msg)),
        None => {
            let file = entry_file(ts, entry);
            let s3 = resolve_pass(reg, file, j, reg.functions.entries@.len() as int);
            let us = uses_of(reg, file);
            let s35 = alias_pass(us, s3, us.len() as int);
            match ns_pass(reg, s35, reg.spaces.entries@.len() as int) {
                Err(msg) => Err(TranspileErrorView::TransformError(msg)),
                Ok(s36) => match first_conflict(fm, ts, s36, false, fm.len() as int) {
                    Some(msg) => Err(TranspileErrorView::TransformError(msg)),
                    None => Ok(s36),
                },
            }
        },
    }
}


/// The outcome of translating modules `ms` with entry module `entry`
/// (source `entry_src`), given the registry `reg` they were read into.
pub open spec fn modules_result(ms: Seq<(Seq<char>, Seq<char>, Seq<char>)>, entry: Seq<char>, entry_src: Seq<char>, reg: NamespaceRegistry) -> Result<Seq<char>, TranspileErrorView> {
    match module_texts(ms, ms.len() as int) {
        Err(e) => Err(e),
        Ok(ts) => match joined(ts, entry, entry_src) {
            Err(e) => Err(e),
            Ok(j) => resolved(reg, ts, entry, j),
        },
    }
}

/// The content of a name -> namespaces table.
pub open spec fn nsmap_view(v: Seq<(Vec<char>, Vec<Vec<char>>)>) -> Seq<(Seq<char>, Seq<Seq<char>>)> {
    v.map_values(|p: (Vec<char>, Vec<Vec<char>>)| (p.0@, vviews(p.1@)))
}

/// `map` with `ns` added under `name`.
fn push_ns_vec(map: &mut Vec<(Vec<char>, Vec<Vec<char>>)>, name: &Vec<char>, ns: &Vec<char>)
    ensures
        nsmap_view(final(map)@) == push_ns(nsmap_view(old(map)@), name@, ns@),
{
    let ghost m0 = nsmap_view(map@);
    let mut i: usize = 0;
    while i < map.len()
        invariant
            0 <= i <= map.len(),
            map@ == old(map)@,
            m0 == nsmap_view(map@),
            forall|j: int| 0 <= j < i ==> map@[j].0@ != name@,
        decreases map.len() - i,
    {
        if same_vec(&map[i].0, name) {
            proof {
                lemma_first_key_at(m0, name@, i as int);
            }
            let ghost before = map@;
            let ghost p0 = map@[i as int];
            assert(m0[i as int] == (p0.0@, vviews(p0.1@)));
            let mut pair = map.remove(i);
            assert(pair == p0);
            let cp = crate::text::sub_vec_copy(ns);
            pair.1.push(cp);
            assert(vviews(pair.1@) =~= vviews(p0.1@).push(ns@));
            let ghost pv = pair;
            map.insert(i, pair);
            assert(map@ =~= before.update(i as int, pv));
            assert(nsmap_view(map@) =~= m0.update(i as int, (name@, m0[i as int].1.push(ns@))));
            return;
        }
        i = i + 1;
    }
    proof {
        lemma_first_key_none(m0, name@);
    }
    let mut v: Vec<Vec<char>> = Vec::new();
    let cp = crate::text::sub_vec_copy(ns);
    v.push(cp);
    assert(vviews(v@) =~= seq![ns@]);
    let nm = crate::text::sub_vec_copy(name);
    let ghost before = map@;
    let ghost pv = (nm, v);
    map.push((nm, v));
    assert(map@ =~= before.push(pv));
    assert(nsmap_view(map@) =~= m0.push((name@, seq![ns@])));
}

/// Whether two character vectors are equal.
fn same_vec(a: &Vec<char>, b: &Vec<char>) -> (r: bool)
    ensures
        r == (a@ == b@),
{
    if a.len() != b.len() {
        return false;
    }
    let mut i: usize = 0;
    while i < a.len()
        invariant
            0 <= i <= a.len(),
            a.len() == b.len(),
            forall|j: int| 0 <= j < i ==> a@[j] == b@[j],
        decreases a.len() - i,
    {
        if a[i] != b[i] {
            return false;
        }
        i = i + 1;
    }
    assert(a@ =~= b@);
    true
}

proof fn lemma_first_key_at(m: Seq<(Seq<char>, Seq<Seq<char>>)>, k: Seq<char>, i: int)
    requires
        0 <= i < m.len(),
        m[i].0 == k,
        forall|j: int| 0 <= j < i ==> m[j].0 != k,
    ensures
        crate::translator::first_key(m, k) == Some(i),
    decreases i,
{
    if i > 0 {
        lemma_first_key_at(m.drop_first(), k, i - 1);
    }
}

proof fn lemma_first_key_none(m: Seq<(Seq<char>, Seq<Seq<char>>)>, k: Seq<char>)
    requires
        forall|j: int| 0 <= j < m.len() ==> m[j].0 != k,
    ensures
        crate::translator::first_key(m, k) is None,
    decreases m.len(),
{
    if m.len() > 0 {
        lemma_first_key_none(m.drop_first(), k);
    }
}

/// Function name -> the namespaces defining it.
fn fn_ns_table(fe: &StrMap<Vec<FunctionInfo>>) -> (r: Vec<(Vec<char>, Vec<Vec<char>>)>)
    ensures
        nsmap_view(r@) == fn_ns_map(fe.entries@, fe.entries@.len() as int),
{
    let mut map: Vec<(Vec<char>, Vec<Vec<char>>)> = Vec::new();
    assert(nsmap_view(map@) =~= Seq::<(Seq<char>, Seq<Seq<char>>)>::empty());
    let mut k: usize = 0;
    while k < fe.entries.len()
        invariant
            0 <= k <= fe.entries.len(),
            nsmap_view(map@) == fn_ns_map(fe.entries@, k as int),
        decreases fe.entries.len() - k,
    {
        let fs = &fe.entries[k].1;
        let ghost m0 = nsmap_view(map@);
        let mut q: usize = 0;
        while q < fs.len()
            invariant
                0 <= q <= fs.len(),
                fs@ == fe.entries@[k as int].1@,
                nsmap_view(map@) == push_fns(m0, fs@, q as int),
            decreases fs.len() - q,
        {
            push_ns_vec(&mut map, &chars_of(fs[q].name.as_str()), &chars_of(fs[q].namespace.as_str()));
            q = q + 1;
        }
        k = k + 1;
    }
    map
}

proof fn lemma_first_conflict_stays(fm: Seq<(Seq<char>, Seq<Seq<char>>)>, ts: Seq<(Seq<char>, Seq<char>, Seq<char>)>, s: Seq<char>, in_sources: bool, k: int, n: int)
    requires
        0 <= k <= n,
        first_conflict(fm, ts, s, in_sources, k) is Some,
    ensures
        first_conflict(fm, ts, s, in_sources, n) == first_conflict(fm, ts, s, in_sources, k),
    decreases n - k,
{
    if k < n {
        lemma_first_conflict_stays(fm, ts, s, in_sources, k, n - 1);
    }
}

/// [`ambiguous_msg`].
fn ambiguous_text(name: &Vec<char>, nss: &Vec<Vec<char>>) -> (r: String)
    requires
        nss@.len() > 0,
    ensures
        r@ == ambiguous_msg(name@, vviews(nss@)),
{
    let mut out: Vec<char> = Vec::new();
    push_str(&mut out, "Error: ambiguous function call '");
    append_vec(&mut out, name);
    push_str(&mut out, "'\nFound in multiple namespaces: ");
    append_vec(&mut out, &crate::translator::join_vec(nss, ", "));
    push_str(&mut out, "\nHelp: use explicit namespace prefix, e.g., ");
    append_vec(&mut out, &nss[0]);
    push_str(&mut out, ".");
    append_vec(&mut out, name);
    push_str(&mut out, "(...)");
    string_of(&out)
}

/// Whether `pat` is accepted and matches `s`.
fn finds_in(pat: &Vec<char>, s: &str) -> (b: bool)
    ensures
        b == finds(pat@, s@),
{
    match regex_search(string_of(pat).as_str(), s) {
        Ok((_g, ms)) => ms.len() > 0,
        Err(_) => false,
    }
}

/// The first name of `fm` defined in several namespaces and called: in the
/// module texts `ts` when `in_sources`, else in `s`.
fn conflict_of(fm: &Vec<(Vec<char>, Vec<Vec<char>>)>, ts: &Vec<(String, String, String)>, s: &str, in_sources: bool) -> (r: Option<String>)
    ensures
        match r {
            Some(m) => first_conflict(nsmap_view(fm@), texts_view(ts@), s@, in_sources, fm@.len() as int) == Some(m@),
            None => first_conflict(nsmap_view(fm@), texts_view(ts@), s@, in_sources, fm@.len() as int) is None,
        },
{
    let ghost fv = nsmap_view(fm@);
    let ghost tv = texts_view(ts@);
    let mut k: usize = 0;
    while k < fm.len()
        invariant
            0 <= k <= fm.len(),
            fv == nsmap_view(fm@),
            tv == texts_view(ts@),
            first_conflict(fv, tv, s@, in_sources, k as int) is None,
        decreases fm.len() - k,
    {
        assert(fv[k as int] == (fm@[k as int].0@, vviews(fm@[k as int].1@)));
        let name = &fm[k].0;
        let nss = &fm[k].1;
        if nss.len() > 1 {
            let called = if in_sources {
                let mut pat: Vec<char> = Vec::new();
                push_str(&mut pat, r"(^|[^.\w])");
                push_str(&mut pat, regex_escape(string_of(name).as_str()).as_str());
                push_str(&mut pat, r"\s*\(");
                assert(pat@ == bare_call_pat(name@));
                let mut hit = false;
                let mut i: usize = 0;
                while i < ts.len()
                    invariant
                        0 <= i <= ts.len(),
                        tv == texts_view(ts@),
                        pat@ == bare_call_pat(name@),
                        hit == called_in_sources(tv, name@, i as int),
                    decreases ts.len() - i,
                {
                    assert(tv[i as int] == (ts@[i as int].0@, ts@[i as int].1@, ts@[i as int].2@));
                    if finds_in(&pat, ts[i].1.as_str()) {
                        hit = true;
                    }
                    i = i + 1;
                }
                hit
            } else {
                let mut pat: Vec<char> = Vec::new();
                push_str(&mut pat, r"(?<![.\w])");
                push_str(&mut pat, regex_escape(string_of(name).as_str()).as_str());
                push_str(&mut pat, r"\s*\(");
                assert(pat@ == unprefixed_call_pat(name@));
                finds_in(&pat, s)
            };
            if called {
                proof {
                    lemma_first_conflict_stays(fv, tv, s@, in_sources, k + 1, fv.len() as int);
                }
                return Some(ambiguous_text(name, nss));
            }
        }
        k = k + 1;
    }
    None
}


/// [`resolve_pass`].
fn resolve_calls(reg: &NamespaceRegistry, file: &str, s: String) -> (r: String)
    ensures
        r@ == resolve_pass(*reg, file@, s@, reg.functions.entries@.len() as int),
{
    let ghost s0 = s@;
    let mut cur = s;
    let mut k: usize = 0;
    while k < reg.functions.entries.len()
        invariant
            0 <= k <= reg.functions.entries.len(),
            cur@ == resolve_pass(*reg, file@, s0, k as int),
        decreases reg.functions.entries.len() - k,
    {
        let name = reg.functions.entries[k].0.as_str();
        if !str_eq(name, "main") {
            match reg.resolve_with_imports(name, file, reg.default_space.as_str()) {
                Ok(Some(ns)) => {
                    if !str_eq(ns.as_str(), reg.default_space.as_str()) {
                        let mut pat: Vec<char> = Vec::new();
                        push_str(&mut pat, r"(?<![.\w])");
                        push_str(&mut pat, regex_escape(name).as_str());
                        push_str(&mut pat, r"\s*\(");
                        assert(pat@ == unprefixed_call_pat(name@));
                        let mut rep = chars_of(ns.as_str());
                        push_str(&mut rep, "::");
                        push_str(&mut rep, name);
                        push_str(&mut rep, "(");
                        cur = replace_all_const(string_of(&pat).as_str(), cur.as_str(), string_of(&rep).as_str());
                    }
                },
                _ => {},
            }
        }
        k = k + 1;
    }
    cur
}

/// [`alias_pass`] for the use statements of `file`.
fn alias_calls(reg: &NamespaceRegistry, file: &str, s: String) -> (r: String)
    ensures
        r@ == alias_pass(uses_of(*reg, file@), s@, uses_of(*reg, file@).len() as int),
{
    match reg.use_statements.get(file) {
        Some(us) => {
            let ghost s0 = s@;
            let mut cur = s;
            let mut k: usize = 0;
            while k < us.len()
                invariant
                    0 <= k <= us.len(),
                    us@ == uses_of(*reg, file@),
                    cur@ == alias_pass(us@, s0, k as int),
                decreases us.len() - k,
            {
                match &us[k].alias {
                    Some(a) => {
                        let mut pat = chars_of(regex_escape(a.as_str()).as_str());
                        push_str(&mut pat, r"\.(\w+)\s*\(");
                        assert(pat@ == alias_call_pat(a@));
                        cur = crate::translator::replace_g1_suffix(string_of(&pat).as_str(), cur.as_str(), "(");
                    },
                    None => {},
                }
                k = k + 1;
            }
            cur
        },
        None => {
            proof {
                assert(uses_of(*reg, file@).len() == 0);
            }
            s
        },
    }
}

/// The name, namespace and visibility of every function of the table, in
/// order.
fn function_list(fe: &StrMap<Vec<FunctionInfo>>) -> (r: Vec<(String, String, bool)>)
    ensures
        r@.map_values(|p: (String, String, bool)| (p.0@, p.1@, p.2)) == fns_view(all_functions(fe.entries@, fe.entries@.len() as int)),
{
    let mut out: Vec<(String, String, bool)> = Vec::new();
    let mut k: usize = 0;
    assert(out@.map_values(|p: (String, String, bool)| (p.0@, p.1@, p.2)) =~= fns_view(all_functions(fe.entries@, 0)));
    while k < fe.entries.len()
        invariant
            0 <= k <= fe.entries.len(),
            out@.map_values(|p: (String, String, bool)| (p.0@, p.1@, p.2)) == fns_view(all_functions(fe.entries@, k as int)),
        decreases fe.entries.len() - k,
    {
        let fs = &fe.entries[k].1;
        let ghost base = fns_view(all_functions(fe.entries@, k as int));
        let mut q: usize = 0;
        while q < fs.len()
            invariant
                0 <= q <= fs.len(),
                fs@ == fe.entries@[k as int].1@,
                out@.map_values(|p: (String, String, bool)| (p.0@, p.1@, p.2)) == base + fns_view(fs@.subrange(0, q as int)),
            decreases fs.len() - q,
        {
            let ghost o0 = out@.map_values(|p: (String, String, bool)| (p.0@, p.1@, p.2));
            out.push((string_of(&chars_of(fs[q].name.as_str())), string_of(&chars_of(fs[q].namespace.as_str())), fs[q].is_public));
            assert(out@.map_values(|p: (String, String, bool)| (p.0@, p.1@, p.2)) =~= o0.push((fs@[q as int].name@, fs@[q as int].namespace@, fs@[q as int].is_public)));
            assert(fns_view(fs@.subrange(0, q + 1)) =~= fns_view(fs@.subrange(0, q as int)).push((fs@[q as int].name@, fs@[q as int].namespace@, fs@[q as int].is_public)));
            q = q + 1;
        }
        assert(fs@.subrange(0, fs.len() as int) =~= fs@);
        assert(fns_view(all_functions(fe.entries@, k + 1)) =~= base + fns_view(fs@));
        k = k + 1;
    }
    out
}

proof fn lemma_ns_calls_err(ns: Seq<char>, fs: Seq<(Seq<char>, Seq<char>, bool)>, s: Seq<char>, k: int, n: int)
    requires
        0 <= k <= n,
        ns_calls(ns, fs, s, k) is Err,
    ensures
        ns_calls(ns, fs, s, n) == ns_calls(ns, fs, s, k),
    decreases n - k,
{
    if k < n {
        lemma_ns_calls_err(ns, fs, s, k, n - 1);
    }
}

proof fn lemma_ns_pass_err(reg: NamespaceRegistry, s: Seq<char>, k: int, n: int)
    requires
        0 <= k <= n,
        ns_pass(reg, s, k) is Err,
    ensures
        ns_pass(reg, s, n) == ns_pass(reg, s, k),
    decreases n - k,
{
    if k < n {
        lemma_ns_pass_err(reg, s, k, n - 1);
    }
}

/// [`ns_pass`].
fn namespace_calls(reg: &NamespaceRegistry, s: String) -> (r: Result<String, String>)
    ensures
        match r {
            Ok(t) => ns_pass(*reg, s@, reg.spaces.entries@.len() as int) == Ok::<Seq<char>, Seq<char>>(t@),
            Err(e) => ns_pass(*reg, s@, reg.spaces.entries@.len() as int) == Err::<Seq<char>, Seq<char>>(e@),
        },
{
    let fl = function_list(&reg.functions);
    let ghost fv = fns_view(all_functions(reg.functions.entries@, reg.functions.entries@.len() as int));
    let ghost s0 = s@;
    let mut cur = s;
    let mut k: usize = 0;
    while k < reg.spaces.entries.len()
        invariant
            0 <= k <= reg.spaces.entries.len(),
            fl@.map_values(|p: (String, String, bool)| (p.0@, p.1@, p.2)) == fv,
            fv == fns_view(all_functions(reg.functions.entries@, reg.functions.entries@.len() as int)),
            ns_pass(*reg, s0, k as int) == Ok::<Seq<char>, Seq<char>>(cur@),
            s0 == s@,
        decreases reg.spaces.entries.len() - k,
    {
        let ns = reg.spaces.entries[k].0.as_str();
        if !(str_eq(ns, "RUST") || str_eq(ns, "HUST") || NamespaceRegistry::is_reserved_namespace(ns)) {
            let ghost c0 = cur@;
            let mut q: usize = 0;
            while q < fl.len()
                invariant
                    0 <= q <= fl.len(),
                    0 <= k < reg.spaces.entries@.len(),
                    ns@ == reg.spaces.entries@[k as int].0@,
                    !(ns@ == "RUST"@ || ns@ == "HUST"@ || is_reserved(ns@)),
                    fv == fns_view(all_functions(reg.functions.entries@, reg.functions.entries@.len() as int)),
                    ns_pass(*reg, s0, k as int) == Ok::<Seq<char>, Seq<char>>(c0),
                    s0 == s@,
                    fl@.map_values(|p: (String, String, bool)| (p.0@, p.1@, p.2)) == fv,
                    ns_calls(ns@, fv, c0, q as int) == Ok::<Seq<char>, Seq<char>>(cur@),
                decreases fl.len() - q,
            {
                assert(fv[q as int] == (fl@[q as int].0@, fl@[q as int].1@, fl@[q as int].2));
                if str_eq(fl[q].1.as_str(), ns) {
                    let mut pat = chars_of(regex_escape(ns).as_str());
                    push_str(&mut pat, r"\.");
                    push_str(&mut pat, regex_escape(fl[q].0.as_str()).as_str());
                    assert(pat@ == ns_call_pat(ns@, fl@[q as int].0@));
                    if finds_in(&pat, cur.as_str()) {
                        if !fl[q].2 {
                            let mut msg: Vec<char> = Vec::new();
                            push_str(&mut msg, "Error: function '");
                            push_str(&mut msg, fl[q].0.as_str());
                            push_str(&mut msg, "' is private in namespace '");
                            push_str(&mut msg, ns);
                            push_str(&mut msg, "'\nHelp: remove 'public' keyword from function definition to make it private,\nor call it from within the same namespace.");
                            proof {
                                assert(msg@ == private_msg(fl@[q as int].0@, ns@));
                                assert(ns_calls(ns@, fv, c0, q + 1) == Err::<Seq<char>, Seq<char>>(msg@));
                                lemma_ns_calls_err(ns@, fv, c0, q + 1, fv.len() as int);
                                assert(ns_pass(*reg, s0, k + 1) == Err::<Seq<char>, Seq<char>>(msg@));
                                lemma_ns_pass_err(*reg, s0, k + 1, reg.spaces.entries@.len() as int);
                            }
                            return Err(string_of(&msg));
                        }
                        cur = replace_all_const(string_of(&pat).as_str(), cur.as_str(), fl[q].0.as_str());
                    }
                }
                q = q + 1;
            }
        }
        k = k + 1;
    }
    Ok(cur)
}


/// What registering leaves of a module is no longer than its source.
proof fn lemma_module_text_len(src: Seq<char>, path: Seq<char>)
    ensures
        module_text(src, path) matches Ok(rem) ==> rem.len() <= src.len(),
{
    lemma_decl_scan_len(lines(src), None, src, path);
    match decl_scan(lines(src), None, src, path).0 {
        Ok((nso, after)) => {
            lemma_use_scan_len(lines(after), Seq::empty(), after);
        },
        Err(e) => {},
    }
}

/// The content of a list of modules.
pub open spec fn modules_view(ms: Seq<Module>) -> Seq<(Seq<char>, Seq<char>, Seq<char>)> {
    ms.map_values(|m: Module| module_view(m))
}

impl Translator {
    /// The joined translation of the registered module texts `ts`, the
    /// entry module last.
    fn joined_text(&self, ts: &Vec<(String, String, String)>, entry: &Module) -> (r: Result<String, TranspileError>)
        requires
            forall|i: int| 0 <= i < ts@.len() ==> (#[trigger] ts@[i]).1@.len() < usize::MAX,
            entry.source@.len() < usize::MAX,
        ensures
            result_view(r) == joined(texts_view(ts@), entry.name@, entry.source@),
    {
        let ghost tv = texts_view(ts@);
        let mut out: Vec<char> = Vec::new();
        let mut k: usize = 0;
        while k < ts.len()
            invariant
                0 <= k <= ts.len(),
                tv == texts_view(ts@),
                forall|i: int| 0 <= i < ts@.len() ==> (#[trigger] ts@[i]).1@.len() < usize::MAX,
                sections(tv, entry.name@, k as int) == Ok::<Seq<char>, TranspileErrorView>(out@),
            decreases ts.len() - k,
        {
            assert(tv[k as int] == (ts@[k as int].0@, ts@[k as int].1@, ts@[k as int].2@));
            if !str_eq(ts[k].0.as_str(), entry.name.as_str()) {
                assert(ts@[k as int].1@.len() < usize::MAX);
                match self.transpile(ts[k].1.as_str()) {
                    Ok(t) => {
                        push_str(&mut out, "// Module: ");
                        push_str(&mut out, ts[k].0.as_str());
                        push_str(&mut out, "\n");
                        push_str(&mut out, t.as_str());
                        push_str(&mut out, "\n\n");
                    },
                    Err(e) => {
                        proof {
                            lemma_sections_err(tv, entry.name@, k + 1, tv.len() as int);
                        }
                        return Err(e);
                    },
                }
            }
            k = k + 1;
        }
        let mut found: Option<usize> = None;
        let mut i: usize = 0;
        while i < ts.len()
            invariant
                0 <= i <= ts.len(),
                tv == texts_view(ts@),
                found is None ==> first_named(tv, entry.name@, 0) == first_named(tv, entry.name@, i as int),
                found matches Some(j) ==> j < ts.len() && first_named(tv, entry.name@, 0) == Some(j as int),
            decreases ts.len() - i,
        {
            assert(tv[i as int] == (ts@[i as int].0@, ts@[i as int].1@, ts@[i as int].2@));
            if found.is_none() && str_eq(ts[i].0.as_str(), entry.name.as_str()) {
                found = Some(i);
            }
            i = i + 1;
        }
        let es: &str = match found {
            Some(j) => {
                assert(ts@[j as int].1@.len() < usize::MAX);
                ts[j].1.as_str()
            },
            None => entry.source.as_str(),
        };
        match self.transpile(es) {
            Ok(t) => {
                let mut all: Vec<char> = Vec::new();
                push_str(&mut all, "// Generated by Hust transpiler\n// Multi-module compilation with namespace support\n\n");
                append_vec(&mut all, &out);
                push_str(&mut all, "// Entry module: ");
                push_str(&mut all, entry.name.as_str());
                push_str(&mut all, "\n");
                push_str(&mut all, t.as_str());
                Ok(string_of(&all))
            },
            Err(e) => Err(e),
        }
    }

    /// Several modules in one Rust text: each module's namespace
    /// declaration and `use` lines read into a registry with its functions
    /// and classes, every other module translated under a heading and the
    /// entry module last, then calls across namespaces checked (an ambiguous
    /// call or a call of a private function is an error) and resolved. The
    /// registry comes back beside the text.
    /// What of module `m` is translated: its text without the namespace
    /// declaration and `use` lines; the error when the declaration or a
    /// pattern is refused.
    pub fn module_body(&self, m: &Module) -> (r: Result<String, TranspileError>)
        ensures
            match r {
                Ok(t) => module_text(m.source@, m.path@) == Ok::<Seq<char>, TranspileErrorView>(t@),
                Err(e) => module_text(m.source@, m.path@) == Err::<Seq<char>, TranspileErrorView>(e@),
            },
    {
        let mut reg = NamespaceRegistry::new();
        register_module(&mut reg, m)
    }

    #[verifier::rlimit(60)]
    pub fn transpile_modules(&self, modules: &Vec<Module>, entry_module: &Module) -> (r: Result<(String, NamespaceRegistry), TranspileError>)
        requires
            forall|i: int| 0 <= i < modules@.len() ==> (#[trigger] modules@[i]).source@.len() < usize::MAX,
            entry_module.source@.len() < usize::MAX,
        ensures
            match r {
                Ok((out, reg)) => {
                    &&& registry_built(reg, modules_view(modules@), modules@.len() as int)
                    &&& modules_result(modules_view(modules@), entry_module.name@, entry_module.source@, reg) == Ok::<Seq<char>, TranspileErrorView>(out@)
                    &&& reg.wf()
                    &&& reg.default_space@ == "default"@
                },
                Err(e) => exists|reg: NamespaceRegistry|
                    #![trigger modules_result(modules_view(modules@), entry_module.name@, entry_module.source@, reg)]
                    (module_texts(modules_view(modules@), modules@.len() as int) is Ok ==> registry_built(reg, modules_view(modules@), modules@.len() as int))
                    && modules_result(modules_view(modules@), entry_module.name@, entry_module.source@, reg) == Err::<Seq<char>, TranspileErrorView>(e@),
            },
    {
        let ghost mv = modules_view(modules@);
        let mut reg = NamespaceRegistry::new();
        let mut ts: Vec<(String, String, String)> = Vec::new();
        let mut k: usize = 0;
        assert(texts_view(ts@) =~= Seq::<(Seq<char>, Seq<char>, Seq<char>)>::empty());
        proof {
            assert forall|q: Seq<char>| #[trigger] infos_view(items_of(reg.functions.entries@, q)) == built_fns(mv, 0, q) by {
                assert(infos_view(items_of(reg.functions.entries@, q)) =~= Seq::empty());
            }
        }
        while k < modules.len()
            invariant
                0 <= k <= modules.len(),
                mv == modules_view(modules@),
                reg.wf(),
                reg.default_space@ == "default"@,
                ts@.len() == k,
                forall|i: int| 0 <= i < modules@.len() ==> (#[trigger] modules@[i]).source@.len() < usize::MAX,
                forall|i: int| 0 <= i < ts@.len() ==> (#[trigger] ts@[i]).1@.len() < usize::MAX,
                module_texts(mv, k as int) == Ok::<Seq<(Seq<char>, Seq<char>, Seq<char>)>, TranspileErrorView>(texts_view(ts@)),
                registry_built(reg, mv, k as int),
            decreases modules.len() - k,
        {
            assert(mv[k as int] == module_view(modules@[k as int]));
            let m = &modules[k];
            let ghost r0 = reg;
            match register_module(&mut reg, m) {
                Ok(rem) => {
                    proof {
                        assert forall|q: Seq<char>| #[trigger] infos_view(items_of(reg.functions.entries@, q)) == built_fns(mv, k + 1, q) by {
                            assert(infos_view(items_of(r0.functions.entries@, q)) == built_fns(mv, k as int, q));
                        }
                        assert forall|q: Seq<char>| #[trigger] reg.functions.spec_get(q) is Some == (built_fns(mv, k + 1, q).len() > 0) by {
                            assert(r0.functions.spec_get(q) is Some == (built_fns(mv, k as int, q).len() > 0));
                        }
                        assert forall|q: Seq<char>| match #[trigger] reg.use_statements.spec_get(q) {
                            Some(v) => built_uses(mv, k + 1, q) == Some(uses_view(v@)),
                            None => built_uses(mv, k + 1, q) is None,
                        } by {
                            if q != m.path@ {
                                assert(reg.use_statements.spec_get(q) == r0.use_statements.spec_get(q));
                            }
                        }
                    }
                    proof {
                        lemma_module_text_len(m.source@, m.path@);
                    }
                    let ghost t0 = texts_view(ts@);
                    ts.push((string_of(&chars_of(m.name.as_str())), rem, string_of(&chars_of(m.path.as_str()))));
                    assert(texts_view(ts@) =~= t0.push((m.name@, module_text(m.source@, m.path@)->Ok_0, m.path@)));
                },
                Err(e) => {
                    proof {
                        lemma_module_texts_err(mv, k + 1, mv.len() as int);
                        assert(modules_result(mv, entry_module.name@, entry_module.source@, reg) == Err::<Seq<char>, TranspileErrorView>(e@));
                    }
                    assert(mv.len() == modules@.len());
                    assert(!(module_texts(mv, mv.len() as int) is Ok));
                    assert((module_texts(mv, mv.len() as int) is Ok ==> registry_built(reg, mv, mv.len() as int))
                        && modules_result(mv, entry_module.name@, entry_module.source@, reg) == Err::<Seq<char>, TranspileErrorView>(e@));
                    return Err(e);
                },
            }
            k = k + 1;
        }
        let ghost tv = texts_view(ts@);
        assert(module_texts(mv, mv.len() as int) == Ok::<Seq<(Seq<char>, Seq<char>, Seq<char>)>, TranspileErrorView>(tv));
        let j = match self.joined_text(&ts, entry_module) {
            Ok(j) => j,
            Err(e) => {
                assert(modules_result(mv, entry_module.name@, entry_module.source@, reg) == Err::<Seq<char>, TranspileErrorView>(e@));
                assert(registry_built(reg, mv, mv.len() as int));
                return Err(e);
            },
        };
        let fm = fn_ns_table(&reg.functions);
        match conflict_of(&fm, &ts, j.as_str(), true) {
            Some(msg) => {
                assert(modules_result(mv, entry_module.name@, entry_module.source@, reg) == Err::<Seq<char>, TranspileErrorView>(TranspileErrorView::TransformError(msg@)));
                assert(registry_built(reg, mv, mv.len() as int));
                return Err(TranspileError::TransformError(msg));
            },
            None => {},
        }
        let mut fi: Option<usize> = None;
        let mut i: usize = 0;
        while i < ts.len()
            invariant
                0 <= i <= ts.len(),
                tv == texts_view(ts@),
                fi is None ==> first_named(tv, entry_module.name@, 0) == first_named(tv, entry_module.name@, i as int),
                fi matches Some(q) ==> q < ts.len() && first_named(tv, entry_module.name@, 0) == Some(q as int),
            decreases ts.len() - i,
        {
            assert(tv[i as int] == (ts@[i as int].0@, ts@[i as int].1@, ts@[i as int].2@));
            if fi.is_none() && str_eq(ts[i].0.as_str(), entry_module.name.as_str()) {
                fi = Some(i);
            }
            i = i + 1;
        }
        let file: String = match fi {
            Some(q) => {
                assert(tv[q as int] == (ts@[q as int].0@, ts@[q as int].1@, ts@[q as int].2@));
                string_of(&chars_of(ts[q].2.as_str()))
            },
            None => String::new(),
        };
        proof {
            reveal_strlit("");
        }
        assert(file@ == entry_file(tv, entry_module.name@));
        let s3 = resolve_calls(&reg, file.as_str(), j);
        let s35 = alias_calls(&reg, file.as_str(), s3);
        let s36 = match namespace_calls(&reg, s35) {
            Ok(t) => t,
            Err(msg) => {
                assert(modules_result(mv, entry_module.name@, entry_module.source@, reg) == Err::<Seq<char>, TranspileErrorView>(TranspileErrorView::TransformError(msg@)));
                assert(registry_built(reg, mv, mv.len() as int));
                return Err(TranspileError::TransformError(msg));
            },
        };
        match conflict_of(&fm, &ts, s36.as_str(), false) {
            Some(msg) => {
                assert(modules_result(mv, entry_module.name@, entry_module.source@, reg) == Err::<Seq<char>, TranspileErrorView>(TranspileErrorView::TransformError(msg@)));
                assert(registry_built(reg, mv, mv.len() as int));
                return Err(TranspileError::TransformError(msg));
            },
            None => {},
        }
        Ok((s36, reg))
    }
}

} // verus!
