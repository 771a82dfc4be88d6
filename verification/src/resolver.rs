//! Dependency resolution of a project's modules, as a state machine: the
//! caller reads files and tells which paths exist; the resolver decides what
//! to read next, refuses circular imports, and lists the modules with the
//! entry last.
use vstd::prelude::*;
use crate::project::{first_true, module_candidates_spec, texts_of, Module, ProjectConfig, ProjectError, ProjectErrorView};
use crate::table::{keys_unique, lookup, put, index_in, str_eq, StrMap};
use crate::text::{chars_of, push_str, string_of};

verus! {

/// What the resolver needs next.
pub enum ResolveStep {
    /// Which of these candidate files of import `0` exist: answer with
    /// [`ModuleResolver::found`].
    Probe(String, Vec<String>),
    /// The module stored at this path: answer with
    /// [`ModuleResolver::module_read`].
    Load(String),
    /// Every module, the entry last.
    Done(Vec<Module>),
}

/// The resolver's state: the modules loaded so far (by import name), the
/// modules being resolved (outermost first) with the next import of each,
/// and the import being looked for.
pub struct ModuleResolver {
    pub loaded_modules: StrMap<Module>,
    pub resolution_stack: Vec<String>,
    pub frames: Vec<(Module, usize)>,
    pub pending: Option<String>,
    pub entry_name: String,
    /// The entry module of the walk.
    pub entry_module: Ghost<Module>,
    /// Some import name was stored a second time (only when a file reads
    /// differently on a second read).
    pub restored: Ghost<bool>,
}

/// What is left to walk of the frames `f`: for each, its imports not yet
/// taken, plus one.
pub open spec fn frames_left(f: Seq<(Module, usize)>) -> nat
    decreases f.len(),
{
    if f.len() == 0 {
        0
    } else {
        frames_left(f.drop_last()) + ((f.last().0.imports@.len() - f.last().1) as nat) + 1
    }
}

/// The circular-dependency message: the stack joined by ` -> `, then the
/// module met again.
pub open spec fn cycle_text(stack: Seq<Seq<char>>, name: Seq<char>) -> Seq<char> {
    crate::translator::join(stack, " -> "@) + " -> "@ + name
}


/// A module as plain values: name, path, text and imports.
pub open spec fn module_view(m: Module) -> (Seq<char>, Seq<char>, Seq<char>, Seq<Seq<char>>) {
    (m.name@, m.path@, m.source@, texts_of(m.imports@))
}

/// The plain values of modules `s`.
pub open spec fn views_of(s: Seq<Module>) -> Seq<(Seq<char>, Seq<char>, Seq<char>, Seq<Seq<char>>)> {
    s.map_values(|m: Module| module_view(m))
}

/// The modules stored in table entries `e`, in order, leaving out those
/// named `entry`.
pub open spec fn others_of(e: Seq<(String, Module)>, entry: Seq<char>) -> Seq<
    (Seq<char>, Seq<char>, Seq<char>, Seq<Seq<char>>),
>
    decreases e.len(),
{
    if e.len() == 0 {
        Seq::empty()
    } else {
        let rest = others_of(e.drop_last(), entry);
        if e.last().1.name@ == entry {
            rest
        } else {
            rest.push(module_view(e.last().1))
        }
    }
}

/// The names on a resolution stack.
pub open spec fn stack_names(v: Seq<String>) -> Seq<Seq<char>> {
    v.map_values(|s: String| s@)
}

impl Module {
    /// A copy of the module.
    pub fn duplicate(&self) -> (r: Module)
        ensures
            module_view(r) == module_view(*self),
    {
        let mut imports: Vec<String> = Vec::new();
        let mut i: usize = 0;
        while i < self.imports.len()
            invariant
                0 <= i <= self.imports.len(),
                imports@.len() == i,
                texts_of(imports@) == texts_of(self.imports@).subrange(0, i as int),
            decreases self.imports.len() - i,
        {
            let c = self.imports[i].clone();
            imports.push(c);
            assert(texts_of(imports@) =~= texts_of(self.imports@).subrange(0, i + 1));
            i = i + 1;
        }
        assert(texts_of(self.imports@).subrange(0, self.imports.len() as int) =~= texts_of(self.imports@));
        Module { name: self.name.clone(), path: self.path.clone(), source: self.source.clone(), imports }
    }
}

/// A module is stored under name `k`.
pub open spec fn has_module(t: StrMap<Module>, k: Seq<char>) -> bool {
    t.spec_get(k) is Some
}

/// The first `upto` imports of `m` are all stored.
pub open spec fn imports_in(t: StrMap<Module>, m: Module, upto: int) -> bool {
    forall|j: int| 0 <= j < upto ==> #[trigger] has_module(t, m.imports@[j]@)
}

/// Every module stored under its own name has all its imports stored: the
/// table is closed under imports.
pub open spec fn closed_under_imports(t: StrMap<Module>) -> bool {
    forall|q: Seq<char>|
        #![trigger t.spec_get(q)]
        (t.spec_get(q) matches Some(m) && m.name@ == q) ==> imports_in(t, t.spec_get(q)->Some_0, t.spec_get(q)->Some_0.imports@.len() as int)
}

/// Each module stored under its own name comes after every import of it:
/// each import is the name of an entry before it.
pub open spec fn in_dep_order(e: Seq<(String, Module)>) -> bool {
    forall|i: int, j: int|
        0 <= i < e.len() && e[i].1.name@ == e[i].0@ && 0 <= j < e[i].1.imports@.len() ==> #[trigger] lookup(
            e.subrange(0, i),
            e[i].1.imports@[j]@,
        ) is Some
}

/// Appending module `v` under name `k` keeps the order, when `v`, stored
/// under its own name, has its imports stored already.
pub proof fn lemma_push_dep_order(e: Seq<(String, Module)>, k: String, v: Module)
    requires
        in_dep_order(e),
        v.name@ == k@ ==> forall|j: int| 0 <= j < v.imports@.len() ==> #[trigger] lookup(e, v.imports@[j]@) is Some,
    ensures
        in_dep_order(e.push((k, v))),
{
    let e2 = e.push((k, v));
    assert forall|i: int, j: int|
        0 <= i < e2.len() && e2[i].1.name@ == e2[i].0@ && 0 <= j < e2[i].1.imports@.len() implies #[trigger] lookup(
            e2.subrange(0, i),
            e2[i].1.imports@[j]@,
        ) is Some by {
        if i < e.len() {
            assert(e2.subrange(0, i) =~= e.subrange(0, i));
            assert(e2[i] == e[i]);
            assert(lookup(e.subrange(0, i), e[i].1.imports@[j]@) is Some);
        } else {
            assert(e2.subrange(0, i) =~= e);
            assert(lookup(e, v.imports@[j]@) is Some);
        }
    }
}

/// Storing more keeps what was stored stored.
pub proof fn lemma_imports_in_grow(t: StrMap<Module>, t2: StrMap<Module>, m: Module, upto: int)
    requires
        imports_in(t, m, upto),
        forall|q: Seq<char>| t.spec_get(q) is Some ==> #[trigger] t2.spec_get(q) is Some,
    ensures
        imports_in(t2, m, upto),
{
    assert forall|j: int| 0 <= j < upto implies #[trigger] has_module(t2, m.imports@[j]@) by {
        assert(has_module(t, m.imports@[j]@));
    }
}

/// Storing `v` under `k` keeps the table closed under imports, when `v`,
/// stored under its own name, has its imports stored already.
pub proof fn lemma_store_closed(t: StrMap<Module>, t2: StrMap<Module>, k: Seq<char>, v: Module)
    requires
        closed_under_imports(t),
        forall|q: Seq<char>|
            #![trigger t2.spec_get(q)]
            t2.spec_get(q) == if q == k {
                Some(v)
            } else {
                t.spec_get(q)
            },
        v.name@ == k ==> imports_in(t, v, v.imports@.len() as int),
    ensures
        closed_under_imports(t2),
        forall|q: Seq<char>| t.spec_get(q) is Some ==> #[trigger] t2.spec_get(q) is Some,
{
    assert forall|q: Seq<char>| t.spec_get(q) is Some implies #[trigger] t2.spec_get(q) is Some by {
        if q != k {
            assert(t2.spec_get(q) == t.spec_get(q));
        }
    }
    assert forall|q: Seq<char>|
        (#[trigger] t2.spec_get(q) matches Some(m) && m.name@ == q) implies imports_in(t2, t2.spec_get(q)->Some_0, t2.spec_get(q)->Some_0.imports@.len() as int) by {
        if q == k {
            lemma_imports_in_grow(t, t2, v, v.imports@.len() as int);
        } else {
            assert(t2.spec_get(q) == t.spec_get(q));
            let m = t.spec_get(q)->Some_0;
            assert(imports_in(t, m, m.imports@.len() as int));
            lemma_imports_in_grow(t, t2, m, m.imports@.len() as int);
        }
    }
}

impl ModuleResolver {
    /// The resolver is consistent: the frames are the modules on top of the
    /// stack, the bottom one being the entry; every frame's next import is
    /// within its imports, and an awaited import is the top frame's next
    /// one, not loaded yet.
    pub open spec fn wf(&self) -> bool {
        let n = self.frames@.len();
        let off = self.resolution_stack@.len() - n;
        &&& n <= self.resolution_stack@.len()
        &&& forall|i: int| 0 <= i < n ==> (#[trigger] self.frames@[i]).1 <= self.frames@[i].0.imports@.len()
        &&& forall|i: int| 0 <= i < n - 1 ==> (#[trigger] self.frames@[i]).1 < self.frames@[i].0.imports@.len()
        &&& forall|i: int| 0 <= i < n ==> self.resolution_stack@[off + i]@ == (#[trigger] self.frames@[i]).0.name@
        &&& n > 0 ==> self.frames@[0].0.name@ == self.entry_name@
        &&& self.pending matches Some(p) ==> {
            &&& n > 0
            &&& self.frames@[n - 1].1 < self.frames@[n - 1].0.imports@.len()
            &&& self.frames@[n - 1].0.imports@[self.frames@[n - 1].1 as int]@ == p@
            &&& self.loaded_modules.spec_get(p@) is None
        }
        &&& keys_unique(self.loaded_modules.entries@)
        &&& closed_under_imports(self.loaded_modules)
        &&& n > 0 ==> self.frames@[0].0 == self.entry_module@
        &&& !self.restored@ ==> in_dep_order(self.loaded_modules.entries@)
        &&& forall|i: int| 0 <= i < n ==> imports_in(self.loaded_modules, (#[trigger] self.frames@[i]).0, self.frames@[i].1 as int)
    }

    /// The name of the import awaited, if any.
    pub open spec fn awaited(&self) -> Seq<char> {
        match self.pending {
            Some(p) => p@,
            None => Seq::empty(),
        }
    }

    /// Step `r` is what the resolver asks for or gives back in its state:
    /// the candidate files of the import it awaits (under search paths
    /// `paths` and project directory `dir`), or, once every frame is done,
    /// the loaded modules other than the entry, in table order, with the
    /// entry last.
    pub open spec fn answered(&self, r: ResolveStep, paths: Seq<Seq<char>>, dir: Seq<char>) -> bool {
        match r {
            ResolveStep::Probe(imp, cands) => {
                &&& self.pending matches Some(p) && p@ == imp@
                &&& self.loaded_modules.spec_get(imp@) is None
                &&& texts_of(cands@) == module_candidates_spec(paths, imp@, dir)
            },
            ResolveStep::Load(_) => false,
            ResolveStep::Done(ms) => {
                &&& self.frames@.len() == 0
                &&& self.pending is None
                &&& ms@.len() >= 1
                &&& ms@.last().name@ == self.entry_name@
                &&& ms@.last() == self.entry_module@
                &&& !self.restored@ ==> in_dep_order(self.loaded_modules.entries@)
                &&& views_of(ms@.drop_last()) == others_of(self.loaded_modules.entries@, self.entry_name@)
            },
        }
    }

    /// A resolver with nothing loaded.
    pub fn new() -> (r: Self)
        ensures
            r.wf(),
            r.loaded_modules.entries@.len() == 0,
            r.resolution_stack@.len() == 0,
            r.frames@.len() == 0,
            r.pending is None,
            r.entry_name@ == Seq::<char>::empty(),
    {
        ModuleResolver {
            loaded_modules: StrMap::new(),
            resolution_stack: Vec::new(),
            frames: Vec::new(),
            pending: None,
            entry_name: String::new(),
            entry_module: Ghost(arbitrary()),
            restored: Ghost(false),
        }
    }

    /// The loaded modules other than the entry, in order, then `last`.
    fn listing(&self, last: Module) -> (r: Vec<Module>)
        ensures
            r@.len() >= 1,
            r@.last() == last,
            views_of(r@.drop_last()) == others_of(self.loaded_modules.entries@, self.entry_name@),
    {
        let mut out: Vec<Module> = Vec::new();
        let mut k: usize = 0;
        while k < self.loaded_modules.entries.len()
            invariant
                0 <= k <= self.loaded_modules.entries.len(),
                views_of(out@) == others_of(self.loaded_modules.entries@.subrange(0, k as int), self.entry_name@),
            decreases self.loaded_modules.entries.len() - k,
        {
            let ghost e = self.loaded_modules.entries@;
            assert(e.subrange(0, k + 1).drop_last() =~= e.subrange(0, k as int));
            if !str_eq(self.loaded_modules.entries[k].1.name.as_str(), self.entry_name.as_str()) {
                let d = self.loaded_modules.entries[k].1.duplicate();
                let ghost o0 = out@;
                out.push(d);
                assert(views_of(out@) =~= views_of(o0).push(module_view(d)));
            }
            k = k + 1;
        }
        assert(self.loaded_modules.entries@.subrange(0, k as int) =~= self.loaded_modules.entries@);
        let ghost o1 = out@;
        out.push(last);
        assert(out@.drop_last() =~= o1);
        out
    }
}

impl ModuleResolver {
    /// Begin resolving module `m`: a module already on the stack is a
    /// circular import; one already loaded is handed back untouched;
    /// otherwise it goes on the stack with its first import next.
    fn enter(&mut self, m: Module) -> (r: Result<Option<Module>, ProjectError>)
        requires
            old(self).wf(),
            old(self).pending is None,
            old(self).frames@.len() == 0 ==> m.name@ == old(self).entry_name@,
            old(self).frames@.len() == 0 ==> m == old(self).entry_module@,
            old(self).frames@.len() > 0 ==> old(self).frames@.last().1 < old(self).frames@.last().0.imports@.len(),
        ensures
            final(self).wf(),
            final(self).loaded_modules == old(self).loaded_modules,
            final(self).entry_name == old(self).entry_name,
            final(self).entry_module == old(self).entry_module,
            final(self).pending is None,
            match r {
                Err(e) => {
                    &&& stack_names(old(self).resolution_stack@).contains(m.name@)
                    &&& e@ == ProjectErrorView::CircularDependency(cycle_text(stack_names(old(self).resolution_stack@), m.name@))
                    &&& final(self).frames@ == old(self).frames@
                    &&& final(self).resolution_stack@ == old(self).resolution_stack@
                },
                Ok(back) => {
                    &&& !stack_names(old(self).resolution_stack@).contains(m.name@)
                    &&& (back is Some <==> old(self).loaded_modules.spec_get(m.name@) is Some)
                    &&& back matches Some(b) ==> b == m && final(self).frames@ == old(self).frames@
                    &&& back is None ==> final(self).frames@ == old(self).frames@.push((m, 0usize))
                },
            },
    {
        let mut on_stack = false;
        let mut i: usize = 0;
        while i < self.resolution_stack.len()
            invariant
                0 <= i <= self.resolution_stack.len(),
                on_stack == exists|k: int| 0 <= k < i && self.resolution_stack@[k]@ == m.name@,
            decreases self.resolution_stack.len() - i,
        {
            if str_eq(self.resolution_stack[i].as_str(), m.name.as_str()) {
                on_stack = true;
            }
            i = i + 1;
        }
        proof {
            if on_stack {
                let k = choose|k: int| 0 <= k < i && self.resolution_stack@[k]@ == m.name@;
                assert(stack_names(self.resolution_stack@)[k] == m.name@);
            } else {
                assert forall|k: int| 0 <= k < stack_names(self.resolution_stack@).len() implies stack_names(self.resolution_stack@)[k] != m.name@ by {
                    assert(stack_names(self.resolution_stack@)[k] == self.resolution_stack@[k]@);
                }
            }
        }
        if on_stack {
            let mut names: Vec<Vec<char>> = Vec::new();
            let mut q: usize = 0;
            assert(crate::text::vviews(names@) =~= stack_names(self.resolution_stack@).subrange(0, 0));
            while q < self.resolution_stack.len()
                invariant
                    0 <= q <= self.resolution_stack.len(),
                    vviews_eq(names@, stack_names(self.resolution_stack@).subrange(0, q as int)),
                decreases self.resolution_stack.len() - q,
            {
                let ghost n0 = names@;
                names.push(chars_of(self.resolution_stack[q].as_str()));
                assert(crate::text::vviews(names@) =~= crate::text::vviews(n0).push(self.resolution_stack@[q as int]@));
                assert(stack_names(self.resolution_stack@).subrange(0, q + 1) =~= stack_names(self.resolution_stack@).subrange(0, q as int).push(self.resolution_stack@[q as int]@));
                q = q + 1;
            }
            assert(stack_names(self.resolution_stack@).subrange(0, self.resolution_stack.len() as int) =~= stack_names(self.resolution_stack@));
            let mut msg = crate::translator::join_vec(&names, " -> ");
            push_str(&mut msg, " -> ");
            push_str(&mut msg, m.name.as_str());
            return Err(ProjectError::CircularDependency(string_of(&msg)));
        }
        if self.loaded_modules.contains_key(m.name.as_str()) {
            return Ok(Some(m));
        }
        let ghost f0 = self.frames@;
        let ghost s0 = self.resolution_stack@;
        self.resolution_stack.push(m.name.clone());
        self.frames.push((m, 0));
        proof {
            let n = f0.len();
            let off = s0.len() - n;
            assert forall|j: int| 0 <= j < n + 1 implies self.resolution_stack@[off + j]@ == (#[trigger] self.frames@[j]).0.name@ by {
                if j < n {
                    assert(self.frames@[j] == f0[j]);
                    assert(self.resolution_stack@[off + j] == s0[off + j]);
                }
            }
            assert forall|j: int| 0 <= j < n implies (#[trigger] self.frames@[j]).1 < self.frames@[j].0.imports@.len() by {
                assert(self.frames@[j] == f0[j]);
            }
        }
        Ok(None)
    }

    /// Walk on until a file is needed or every frame is done: each frame's
    /// imports in turn, one already loaded passed over; a finished module
    /// is stored under the import that named it.
    fn advance(&mut self, config: &ProjectConfig, project_dir: &str) -> (r: ResolveStep)
        requires
            old(self).wf(),
            old(self).frames@.len() > 0,
            old(self).pending is None,
        ensures
            final(self).wf(),
            final(self).entry_name == old(self).entry_name,
            final(self).entry_module == old(self).entry_module,
            final(self).answered(r, texts_of(config.module_paths@), project_dir@),
            forall|q: Seq<char>|
                old(self).loaded_modules.spec_get(q) is Some ==> #[trigger] final(self).loaded_modules.spec_get(q) is Some,
            r matches ResolveStep::Done(ms) ==> imports_in(final(self).loaded_modules, ms@.last(), ms@.last().imports@.len() as int),
    {
        loop
            invariant
                self.wf(),
                self.frames@.len() > 0,
                self.pending is None,
                self.entry_name == old(self).entry_name,
                self.entry_module == old(self).entry_module,
                forall|q: Seq<char>|
                    old(self).loaded_modules.spec_get(q) is Some ==> #[trigger] self.loaded_modules.spec_get(q) is Some,
            decreases frames_left(self.frames@),
        {
            let top = self.frames.len() - 1;
            let i = self.frames[top].1;
            if i < self.frames[top].0.imports.len() {
                let imp = self.frames[top].0.imports[i].clone();
                if self.loaded_modules.contains_key(imp.as_str()) {
                    let ghost f0 = self.frames@;
                    let (m, j) = self.frames.pop().unwrap();
                    self.frames.push((m, j + 1));
                    proof {
                        assert(self.frames@.drop_last() =~= f0.drop_last());
                        assert(frames_left(self.frames@) < frames_left(f0));
                        assert forall|q: int| 0 <= q < top implies #[trigger] self.frames@[q] == f0[q] by {}
                        assert(imports_in(self.loaded_modules, f0[top as int].0, f0[top as int].1 as int));
                        assert(has_module(self.loaded_modules, m.imports@[j as int]@));
                        assert forall|q: int| 0 <= q < self.frames@.len() implies imports_in(self.loaded_modules, (#[trigger] self.frames@[q]).0, self.frames@[q].1 as int) by {
                            if q < top {
                                assert(self.frames@[q] == f0[q]);
                            }
                        }
                    }
                } else {
                    let cands = config.module_candidates(imp.as_str(), project_dir);
                    self.pending = Some(imp.clone());
                    return ResolveStep::Probe(imp, cands);
                }
            } else {
                let ghost f0 = self.frames@;
                let (done, _) = self.frames.pop().unwrap();
                self.resolution_stack.pop();
                assert(self.frames@ =~= f0.drop_last());
                if self.frames.len() == 0 {
                    proof {
                        assert(f0[top as int].0 == done);
                        assert(imports_in(self.loaded_modules, done, f0[top as int].1 as int));
                    }
                    let out = self.listing(done);
                    return ResolveStep::Done(out);
                }
                let p = self.frames.len() - 1;
                let ghost f1 = self.frames@;
                assert(f1[p as int] == f0[p as int]);
                assert(f0[p as int].1 < f0[p as int].0.imports@.len());
                let (pm, pi) = self.frames.pop().unwrap();
                assert(pm == f1[p as int].0 && pi == f1[p as int].1);
                let plen = pm.imports.len();
                assert(pi < plen);
                let key = pm.imports[pi].clone();
                let ghost t1 = self.loaded_modules;
                proof {
                    assert(f0[top as int].0 == done);
                    assert(imports_in(t1, done, f0[top as int].1 as int));
                }
                let ghost fresh = t1.spec_get(key@) is None;
                self.loaded_modules.insert(key, done);
                proof {
                    self.restored@ = self.restored@ || !fresh;
                }
                self.frames.push((pm, pi + 1));
                proof {
                    if fresh {
                        assert(index_in(t1.entries@, key@) is None);
                        assert(self.loaded_modules.entries@ == t1.entries@.push((key, done)));
                        if !self.restored@ {
                            assert forall|j: int| 0 <= j < done.imports@.len() implies #[trigger] lookup(t1.entries@, done.imports@[j]@) is Some by {
                                assert(has_module(t1, done.imports@[j]@));
                            }
                            lemma_push_dep_order(t1.entries@, key, done);
                        }
                    }
                    assert(self.frames@.drop_last() =~= f1.drop_last());
                    assert(frames_left(self.frames@) < frames_left(f1));
                    assert(frames_left(f1) < frames_left(f0));
                    assert forall|q: int| 0 <= q < p implies #[trigger] self.frames@[q] == f0[q] by {}
                    lemma_store_closed(t1, self.loaded_modules, key@, done);
                    assert forall|q: Seq<char>| old(self).loaded_modules.spec_get(q) is Some implies #[trigger] self.loaded_modules.spec_get(q) is Some by {
                        assert(t1.spec_get(q) is Some);
                    }
                    assert(has_module(self.loaded_modules, pm.imports@[pi as int]@));
                    assert forall|q: int| 0 <= q < self.frames@.len() implies imports_in(self.loaded_modules, (#[trigger] self.frames@[q]).0, self.frames@[q].1 as int) by {
                        if q < p {
                            assert(self.frames@[q] == f0[q]);
                            assert(imports_in(t1, f0[q].0, f0[q].1 as int));
                            lemma_imports_in_grow(t1, self.loaded_modules, f0[q].0, f0[q].1 as int);
                        } else {
                            assert(imports_in(t1, pm, pi as int));
                            lemma_imports_in_grow(t1, self.loaded_modules, pm, pi as int);
                        }
                    }
                }
            }
        }
    }

    /// Start resolving from entry module `entry`, read by the caller; a walk
    /// left unfinished is dropped. Gives the first step, or the circular
    /// import met when the entry is on the stack already.
    pub fn resolve(&mut self, entry: Module, config: &ProjectConfig, project_dir: &str) -> (r: Result<ResolveStep, ProjectError>)
        requires
            old(self).wf(),
        ensures
            final(self).wf(),
            final(self).entry_name@ == entry.name@,
            final(self).entry_module@ == entry,
            match r {
                Err(e) => {
                    &&& stack_names(old(self).resolution_stack@).contains(entry.name@)
                    &&& e@ == ProjectErrorView::CircularDependency(cycle_text(stack_names(old(self).resolution_stack@), entry.name@))
                    &&& final(self).loaded_modules == old(self).loaded_modules
                    &&& final(self).resolution_stack@ == old(self).resolution_stack@
                },
                Ok(step) => {
                    &&& !stack_names(old(self).resolution_stack@).contains(entry.name@)
                    &&& final(self).answered(step, texts_of(config.module_paths@), project_dir@)
                    &&& forall|q: Seq<char>|
                        old(self).loaded_modules.spec_get(q) is Some ==> #[trigger] final(self).loaded_modules.spec_get(q) is Some
                    &&& old(self).loaded_modules.spec_get(entry.name@) is None ==> (step matches ResolveStep::Done(ms)
                        ==> imports_in(final(self).loaded_modules, ms@.last(), ms@.last().imports@.len() as int))
                },
            },
    {
        self.frames = Vec::new();
        self.pending = None;
        self.entry_name = entry.name.clone();
        self.entry_module = Ghost(entry);
        match self.enter(entry) {
            Err(e) => Err(e),
            Ok(Some(back)) => Ok(ResolveStep::Done(self.listing(back))),
            Ok(None) => Ok(self.advance(config, project_dir)),
        }
    }

    /// The answer to a `Probe`: `exists[i]` tells whether candidate file `i`
    /// of the awaited import exists. The first that does is asked for with
    /// `Load`; when none does, the import is not found.
    pub fn found(&mut self, config: &ProjectConfig, project_dir: &str, exists: &Vec<bool>) -> (r: Result<ResolveStep, ProjectError>)
        requires
            old(self).wf(),
            old(self).pending is Some,
            exists@.len() == config.module_paths@.len() + 1,
        ensures
            final(self).wf(),
            final(self).entry_name == old(self).entry_name,
            final(self).entry_module == old(self).entry_module,
            match first_true(exists@) {
                Some(i) => {
                    &&& r matches Ok(ResolveStep::Load(p)) && p@ == module_candidates_spec(
                        texts_of(config.module_paths@),
                        old(self).awaited(),
                        project_dir@,
                    )[i]
                    &&& *final(self) == *old(self)
                },
                None => {
                    &&& r matches Err(e) && e@ == ProjectErrorView::ModuleNotFound(old(self).awaited())
                    &&& final(self).frames@.len() == 0
                    &&& final(self).pending is None
                },
            },
    {
        let imp = match &self.pending {
            Some(p) => p.clone(),
            None => String::new(),
        };
        match config.find_module(imp.as_str(), project_dir, exists) {
            Ok(p) => Ok(ResolveStep::Load(p)),
            Err(e) => {
                self.frames = Vec::new();
                self.pending = None;
                Err(e)
            },
        }
    }

    /// The answer to a `Load`: module `m`, read from the file asked for. It
    /// is resolved in turn (a module on the stack is a circular import; one
    /// loaded already is stored under the awaited import at once), then the
    /// walk goes on.
    pub fn module_read(&mut self, config: &ProjectConfig, project_dir: &str, m: Module) -> (r: Result<ResolveStep, ProjectError>)
        requires
            old(self).wf(),
            old(self).pending is Some,
        ensures
            final(self).wf(),
            final(self).entry_name == old(self).entry_name,
            final(self).entry_module == old(self).entry_module,
            match r {
                Err(e) => {
                    &&& stack_names(old(self).resolution_stack@).contains(m.name@)
                    &&& e@ == ProjectErrorView::CircularDependency(cycle_text(stack_names(old(self).resolution_stack@), m.name@))
                    &&& final(self).loaded_modules == old(self).loaded_modules
                    &&& final(self).resolution_stack@ == old(self).resolution_stack@
                    &&& final(self).frames@.len() == 0
                    &&& final(self).pending is None
                },
                Ok(step) => {
                    &&& !stack_names(old(self).resolution_stack@).contains(m.name@)
                    &&& final(self).answered(step, texts_of(config.module_paths@), project_dir@)
                    &&& forall|q: Seq<char>|
                        old(self).loaded_modules.spec_get(q) is Some ==> #[trigger] final(self).loaded_modules.spec_get(q) is Some
                    &&& step matches ResolveStep::Done(ms) ==> imports_in(final(self).loaded_modules, ms@.last(), ms@.last().imports@.len() as int)
                },
            },
    {
        self.pending = None;
        match self.enter(m) {
            Err(e) => {
                self.frames = Vec::new();
                Err(e)
            },
            Ok(Some(back)) => {
                let ghost f0 = self.frames@;
                let top = self.frames.len() - 1;
                assert(f0[top as int].1 < f0[top as int].0.imports@.len());
                let (pm, pi) = self.frames.pop().unwrap();
                assert(pm == f0[top as int].0 && pi == f0[top as int].1);
                let plen = pm.imports.len();
                assert(pi < plen);
                let key = pm.imports[pi].clone();
                let ghost t1 = self.loaded_modules;
                proof {
                    assert(key@ == old(self).awaited());
                    assert(t1.spec_get(key@) is None);
                    assert(t1.spec_get(back.name@) is Some);
                }
                self.loaded_modules.insert(key, back);
                self.frames.push((pm, pi + 1));
                proof {
                    assert(index_in(t1.entries@, key@) is None);
                    assert(self.loaded_modules.entries@ == t1.entries@.push((key, back)));
                    if !self.restored@ {
                        lemma_push_dep_order(t1.entries@, key, back);
                    }
                    assert forall|q: int| 0 <= q < top implies #[trigger] self.frames@[q] == f0[q] by {}
                    lemma_store_closed(t1, self.loaded_modules, key@, back);
                    assert(has_module(self.loaded_modules, pm.imports@[pi as int]@));
                    assert forall|q: Seq<char>| old(self).loaded_modules.spec_get(q) is Some implies #[trigger] self.loaded_modules.spec_get(q) is Some by {
                        assert(t1.spec_get(q) is Some);
                    }
                    assert forall|q: int| 0 <= q < self.frames@.len() implies imports_in(self.loaded_modules, (#[trigger] self.frames@[q]).0, self.frames@[q].1 as int) by {
                        if q < top {
                            assert(imports_in(t1, f0[q].0, f0[q].1 as int));
                            lemma_imports_in_grow(t1, self.loaded_modules, f0[q].0, f0[q].1 as int);
                        } else {
                            assert(imports_in(t1, pm, pi as int));
                            lemma_imports_in_grow(t1, self.loaded_modules, pm, pi as int);
                        }
                    }
                }
                Ok(self.advance(config, project_dir))
            },
            Ok(None) => Ok(self.advance(config, project_dir)),
        }
    }
}

/// Texts of character vectors equal `t`.
pub open spec fn vviews_eq(v: Seq<Vec<char>>, t: Seq<Seq<char>>) -> bool {
    crate::text::vviews(v) == t
}

} // verus!
