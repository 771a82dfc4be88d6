//! Project configuration (`settings.config`) and module discovery.
//!
//! Reading files and probing the file system belong to the caller: this
//! module parses the text it is given, lists where a module may lie, picks
//! the first place that exists, and drives dependency loading one module at
//! a time.
use vstd::prelude::*;
use crate::table::{lookup, str_eq, StrMap};
use crate::text::{
    chars_of, has_char, idx_of, lemma_idx_of_bounds, lines, push_str, split_lines, split_on,
    split_vec, string_of, string_of_range, sub_vec, trim, trim_bounds, trim_vec, vviews, same_text,
    append_vec,
};

verus! {

/// Errors of project handling. A failed read carries the reader's message.
#[derive(Debug)]
pub enum ProjectError {
    ConfigRead(String),
    ParseError(String),
    ModuleNotFound(String),
    CircularDependency(String),
}

/// The content of a [`ProjectError`].
pub enum ProjectErrorView {
    ConfigRead(Seq<char>),
    ParseError(Seq<char>),
    ModuleNotFound(Seq<char>),
    CircularDependency(Seq<char>),
}

impl View for ProjectError {
    type V = ProjectErrorView;

    open spec fn view(&self) -> ProjectErrorView {
        match self {
            ProjectError::ConfigRead(s) => ProjectErrorView::ConfigRead(s@),
            ProjectError::ParseError(s) => ProjectErrorView::ParseError(s@),
            ProjectError::ModuleNotFound(s) => ProjectErrorView::ModuleNotFound(s@),
            ProjectError::CircularDependency(s) => ProjectErrorView::CircularDependency(s@),
        }
    }
}

/// The text an error is shown with.
pub open spec fn project_error_text(e: ProjectErrorView) -> Seq<char> {
    match e {
        ProjectErrorView::ConfigRead(s) => "Config read failed: "@ + s,
        ProjectErrorView::ParseError(s) => "Config parse error: "@ + s,
        ProjectErrorView::ModuleNotFound(s) => "Module not found: "@ + s,
        ProjectErrorView::CircularDependency(s) => "Circular dependency detected: "@ + s,
    }
}

impl ProjectError {
    /// The text the error is shown with.
    pub fn message(&self) -> (r: String)
        ensures
            r@ == project_error_text(self@),
    {
        let mut v: Vec<char> = Vec::new();
        match self {
            ProjectError::ConfigRead(s) => {
                push_str(&mut v, "Config read failed: ");
                push_str(&mut v, s.as_str());
            },
            ProjectError::ParseError(s) => {
                push_str(&mut v, "Config parse error: ");
                push_str(&mut v, s.as_str());
            },
            ProjectError::ModuleNotFound(s) => {
                push_str(&mut v, "Module not found: ");
                push_str(&mut v, s.as_str());
            },
            ProjectError::CircularDependency(s) => {
                push_str(&mut v, "Circular dependency detected: ");
                push_str(&mut v, s.as_str());
            },
        }
        string_of(&v)
    }
}

/// Package metadata.
#[derive(Debug, Clone)]
pub struct PackageConfig {
    pub name: String,
    pub version: String,
    pub author: Option<String>,
    /// The entry file, `main.hust` unless set.
    pub entry: String,
}

/// Project configuration (`settings.config`).
#[derive(Debug)]
pub struct ProjectConfig {
    pub package: PackageConfig,
    /// Module search paths, relative to the project directory.
    pub module_paths: Vec<String>,
    /// Dependencies, by name (not read from the file yet).
    pub dependencies: StrMap<String>,
}

/// The content of a [`PackageConfig`].
pub struct PackageView {
    pub name: Seq<char>,
    pub version: Seq<char>,
    pub author: Option<Seq<char>>,
    pub entry: Seq<char>,
}

/// The content of a [`ProjectConfig`].
pub struct ConfigView {
    pub package: PackageView,
    pub module_paths: Seq<Seq<char>>,
    pub dependencies: Seq<(Seq<char>, Seq<char>)>,
}

/// The texts of a sequence of strings.
pub open spec fn texts_of(v: Seq<String>) -> Seq<Seq<char>> {
    v.map_values(|s: String| s@)
}

impl View for PackageConfig {
    type V = PackageView;

    open spec fn view(&self) -> PackageView {
        PackageView {
            name: self.name@,
            version: self.version@,
            author: match self.author {
                Some(a) => Some(a@),
                None => None,
            },
            entry: self.entry@,
        }
    }
}

impl View for ProjectConfig {
    type V = ConfigView;

    open spec fn view(&self) -> ConfigView {
        ConfigView {
            package: self.package@,
            module_paths: texts_of(self.module_paths@),
            dependencies: self.dependencies.entries@.map_values(|kv: (String, String)| (kv.0@, kv.1@)),
        }
    }
}

/// A configuration with nothing set.
pub open spec fn empty_config() -> ConfigView {
    ConfigView {
        package: PackageView { name: Seq::empty(), version: Seq::empty(), author: None, entry: Seq::empty() },
        module_paths: Seq::empty(),
        dependencies: Seq::empty(),
    }
}

/// The module search paths used when none are configured.
pub open spec fn default_paths() -> Seq<Seq<char>> {
    seq!["src"@, "lib"@]
}

/// `c` with `key = value` of section `section` applied: `name`, `version`,
/// `author` and `entry` in `[project]` or `[package]`, the comma separated
/// `paths` in `[modules]`; anything else is ignored.
pub open spec fn apply_setting(c: ConfigView, section: Seq<char>, key: Seq<char>, value: Seq<char>) -> ConfigView {
    let p = c.package;
    if section == "project"@ || section == "package"@ {
        if key == "name"@ {
            ConfigView { package: PackageView { name: value, version: p.version, author: p.author, entry: p.entry }, module_paths: c.module_paths, dependencies: c.dependencies }
        } else if key == "version"@ {
            ConfigView { package: PackageView { name: p.name, version: value, author: p.author, entry: p.entry }, module_paths: c.module_paths, dependencies: c.dependencies }
        } else if key == "author"@ {
            ConfigView { package: PackageView { name: p.name, version: p.version, author: Some(value), entry: p.entry }, module_paths: c.module_paths, dependencies: c.dependencies }
        } else if key == "entry"@ {
            ConfigView { package: PackageView { name: p.name, version: p.version, author: p.author, entry: value }, module_paths: c.module_paths, dependencies: c.dependencies }
        } else {
            c
        }
    } else if section == "modules"@ && key == "paths"@ {
        ConfigView {
            package: p,
            module_paths: split_on(value, ',').map_values(|s: Seq<char>| trim(s)),
            dependencies: c.dependencies,
        }
    } else {
        c
    }
}

/// The configuration after lines `ls`, read in section `section` from `c`:
/// blank lines and `#` comments are skipped, `[name]` opens a section, and a
/// line with `=` is a setting (split at its first `=`, both sides trimmed).
pub open spec fn parse_lines(ls: Seq<Seq<char>>, section: Seq<char>, c: ConfigView) -> ConfigView
    decreases ls.len(),
{
    if ls.len() == 0 {
        c
    } else {
        let t = trim(ls[0]);
        let rest = ls.drop_first();
        if t.len() == 0 || t[0] == '#' {
            parse_lines(rest, section, c)
        } else if t[0] == '[' && t.last() == ']' {
            parse_lines(rest, t.subrange(1, t.len() - 1), c)
        } else if has_char(t, '=') {
            let eq = idx_of(t, '=');
            parse_lines(
                rest,
                section,
                apply_setting(c, section, trim(t.subrange(0, eq)), trim(t.subrange(eq + 1, t.len() as int))),
            )
        } else {
            parse_lines(rest, section, c)
        }
    }
}

/// `c` with the defaults for what was not set: entry `main.hust`, paths
/// `src` and `lib`.
pub open spec fn with_defaults(c: ConfigView) -> ConfigView {
    let p = c.package;
    ConfigView {
        package: PackageView {
            name: p.name,
            version: p.version,
            author: p.author,
            entry: if p.entry.len() == 0 { "main.hust"@ } else { p.entry },
        },
        module_paths: if c.module_paths.len() == 0 { default_paths() } else { c.module_paths },
        dependencies: c.dependencies,
    }
}

/// The configuration that `content` describes.
pub open spec fn parse_config(content: Seq<char>) -> ConfigView {
    with_defaults(parse_lines(lines(content), Seq::empty(), empty_config()))
}

/// Whatever the text, a parsed configuration names an entry file and at
/// least one search path: what the text leaves unset takes its default.
pub proof fn law_config_has_entry_and_paths(content: Seq<char>)
    ensures
        parse_config(content).package.entry.len() > 0,
        parse_config(content).module_paths.len() > 0,
{
    reveal_strlit("main.hust");
}

fn copy_string(s: &String) -> (r: String)
    ensures
        r@ == s@,
{
    s.clone()
}

/// The trimmed comma separated pieces of `value`.
fn split_paths(value: &Vec<char>) -> (r: Vec<String>)
    ensures
        texts_of(r@) == split_on(value@, ',').map_values(|s: Seq<char>| trim(s)),
{
    let pieces = split_vec(value, ',');
    let ghost want = split_on(value@, ',').map_values(|s: Seq<char>| trim(s));
    let mut r: Vec<String> = Vec::new();
    let mut i: usize = 0;
    while i < pieces.len()
        invariant
            0 <= i <= pieces.len(),
            vviews(pieces@) == split_on(value@, ','),
            want == split_on(value@, ',').map_values(|s: Seq<char>| trim(s)),
            r@.len() == i,
            texts_of(r@) == want.subrange(0, i as int),
        decreases pieces.len() - i,
    {
        let t = trim_vec(&pieces[i]);
        r.push(string_of(&t));
        proof {
            assert(vviews(pieces@)[i as int] == pieces@[i as int]@);
            assert(want[i as int] == trim(split_on(value@, ',')[i as int]));
            assert(texts_of(r@)[i as int] == want[i as int]);
            assert(texts_of(r@) =~= want.subrange(0, i + 1));
        }
        i = i + 1;
    }
    assert(want.subrange(0, pieces.len() as int) =~= want);
    r
}

impl ProjectConfig {
    /// A configuration with nothing set.
    fn empty() -> (c: Self)
        ensures
            c@ == empty_config(),
    {
        let c = ProjectConfig {
            package: PackageConfig {
                name: String::new(),
                version: String::new(),
                author: None,
                entry: String::new(),
            },
            module_paths: Vec::new(),
            dependencies: StrMap::new(),
        };
        assert(c@.module_paths =~= Seq::<Seq<char>>::empty());
        assert(c@.dependencies =~= Seq::<(Seq<char>, Seq<char>)>::empty());
        c
    }

    /// Apply `key = value` read in section `section`.
    fn apply(&mut self, section: &Vec<char>, key: &Vec<char>, value: &Vec<char>)
        ensures
            final(self)@ == apply_setting(old(self)@, section@, key@, value@),
    {
        if same_text(section, "project") || same_text(section, "package") {
            if same_text(key, "name") {
                self.package.name = string_of(value);
            } else if same_text(key, "version") {
                self.package.version = string_of(value);
            } else if same_text(key, "author") {
                self.package.author = Some(string_of(value));
            } else if same_text(key, "entry") {
                self.package.entry = string_of(value);
            }
        } else if same_text(section, "modules") && same_text(key, "paths") {
            self.module_paths = split_paths(value);
        }
    }

    /// Parse a configuration from the text of `settings.config`. Reading it
    /// never fails: unknown lines and keys are ignored.
    pub fn parse(content: &str) -> (r: Result<Self, ProjectError>)
        ensures
            r matches Ok(c) && c@ == parse_config(content@),
    {
        let mut config = Self::empty();
        let src = chars_of(content);
        let ls = split_lines(&src);
        let ghost all = lines(content@);
        let mut section: Vec<char> = Vec::new();
        let mut i: usize = 0;
        assert(vviews(ls@).subrange(0, ls@.len() as int) =~= all);
        while i < ls.len()
            invariant
                0 <= i <= ls.len(),
                vviews(ls@) == all,
                all == lines(content@),
                parse_lines(all, Seq::empty(), empty_config()) == parse_lines(
                    all.subrange(i as int, all.len() as int),
                    section@,
                    config@,
                ),
            decreases ls.len() - i,
        {
            let ghost rest = all.subrange(i as int, all.len() as int);
            assert(rest[0] == ls@[i as int]@);
            assert(rest.drop_first() =~= all.subrange(i + 1, all.len() as int));
            let t = trim_vec(&ls[i]);
            if t.len() == 0 || t[0] == '#' {
            } else if t[0] == '[' && t[t.len() - 1] == ']' {
                section = sub_vec(&t, 1, t.len() - 1);
            } else {
                let mut eq: usize = 0;
                while eq < t.len() && t[eq] != '='
                    invariant
                        0 <= eq <= t.len(),
                        forall|k: int| 0 <= k < eq ==> t@[k] != '=',
                    decreases t.len() - eq,
                {
                    eq = eq + 1;
                }
                proof {
                    crate::text::lemma_idx_of(t@, '=', eq as int);
                }
                if eq < t.len() {
                    let (a, b) = trim_bounds(&t, 0, eq);
                    let key = sub_vec(&t, a, b);
                    let (c, d) = trim_bounds(&t, eq + 1, t.len());
                    let value = sub_vec(&t, c, d);
                    config.apply(&section, &key, &value);
                } else {
                    assert(!has_char(t@, '='));
                }
            }
            i = i + 1;
        }
        assert(all.subrange(i as int, all.len() as int) =~= Seq::<Seq<char>>::empty());
        if config.package.entry.as_str().is_empty() {
            config.package.entry = String::from_str("main.hust");
        }
        if config.module_paths.len() == 0 {
            let mut paths: Vec<String> = Vec::new();
            paths.push(String::from_str("src"));
            paths.push(String::from_str("lib"));
            config.module_paths = paths;
            assert(texts_of(config.module_paths@) =~= default_paths());
        }
        Ok(config)
    }

    /// The configuration used without `settings.config`: package `unnamed`,
    /// version `0.1.0`, no author, entry `entry`, paths `src` and `lib`.
    pub fn default_with_entry(entry: &str) -> (c: Self)
        ensures
            c@.package.name == "unnamed"@,
            c@.package.version == "0.1.0"@,
            c@.package.author is None,
            c@.package.entry == entry@,
            c@.module_paths == default_paths(),
            c@.dependencies.len() == 0,
    {
        let mut paths: Vec<String> = Vec::new();
        paths.push(String::from_str("src"));
        paths.push(String::from_str("lib"));
        let c = ProjectConfig {
            package: PackageConfig {
                name: String::from_str("unnamed"),
                version: String::from_str("0.1.0"),
                author: None,
                entry: String::from_str(entry),
            },
            module_paths: paths,
            dependencies: StrMap::new(),
        };
        assert(c@.module_paths =~= default_paths());
        c
    }
}

// The final component of a path without its extension, as
// `std::path::Path::file_stem` gives it.
pub uninterp spec fn path_file_stem(path: Seq<char>) -> Option<Seq<char>>;

/// `Path::new(path).file_stem()`, as text. Its result is named, not stated:
/// the rules of path components and extensions are std's.
#[verifier::external_body]
fn file_stem_of(path: &str) -> (r: Option<String>)
    ensures
        r.deep_view() == path_file_stem(path@),
{
    match std::path::Path::new(path).file_stem() {
        Some(n) => n.to_str().map(String::from),
        None => None,
    }
}

// `base` joined with `p`, as `std::path::Path::join` gives it.
pub uninterp spec fn path_join(base: Seq<char>, p: Seq<char>) -> Seq<char>;

/// `Path::new(base).join(p)`, as text. Its result is named, not stated:
/// separators and absolute `p` follow std's rules.
#[verifier::external_body]
fn join_path(base: &str, p: &str) -> (r: String)
    ensures
        r@ == path_join(base@, p@),
{
    std::path::Path::new(base).join(p).to_string_lossy().into_owned()
}

/// A source module.
#[derive(Debug, Clone)]
pub struct Module {
    pub name: String,
    pub path: String,
    pub source: String,
    /// The names of the modules it imports, in order.
    pub imports: Vec<String>,
}

/// The module imported by trimmed line `t`, `use NAME;`, if it is one.
pub open spec fn import_of(t: Seq<char>) -> Option<Seq<char>> {
    if t.len() >= 4 && t.subrange(0, 4) == "use "@ && t.len() > 0 && t.last() == ';' {
        let n = trim(t.subrange(4, t.len() - 1));
        if n.len() > 0 {
            Some(n)
        } else {
            None
        }
    } else {
        None
    }
}

/// The modules imported by lines `ls`, in order.
pub open spec fn imports_of(ls: Seq<Seq<char>>) -> Seq<Seq<char>>
    decreases ls.len(),
{
    if ls.len() == 0 {
        Seq::empty()
    } else {
        let rest = imports_of(ls.drop_first());
        match import_of(trim(ls[0])) {
            Some(n) => seq![n] + rest,
            None => rest,
        }
    }
}

/// The name a module is known by: the file stem of its path, or `unknown`.
pub open spec fn module_name_of(path: Seq<char>) -> Seq<char> {
    match path_file_stem(path) {
        Some(n) => n,
        None => "unknown"@,
    }
}

fn import_in_line(t: &Vec<char>) -> (r: Option<String>)
    ensures
        r.deep_view() == import_of(t@),
{
    let uv = chars_of("use ");
    proof {
        reveal_strlit("use ");
    }
    if t.len() >= 4 && crate::text::matches_at(t, 0, &uv) && t[t.len() - 1] == ';' {
        proof {
            assert(t@.subrange(0, 4) == uv@);
            assert(uv@[3] == ' ');
            assert(t@[3] == t@.subrange(0, 4)[3]);
        }
        let (a, b) = trim_bounds(t, 4, t.len() - 1);
        if a < b {
            Some(string_of_range(t, a, b))
        } else {
            None
        }
    } else {
        proof {
            if t.len() >= 4 && t@.subrange(0, 4) == "use "@ {
                assert(t@.subrange(0, uv@.len() as int) == uv@);
            }
        }
        None
    }
}

impl Module {
    /// The modules imported by `source`: each line `use NAME;` names one.
    pub fn extract_imports(source: &str) -> (r: Vec<String>)
        ensures
            texts_of(r@) == imports_of(lines(source@)),
    {
        let src = chars_of(source);
        let ls = split_lines(&src);
        let ghost all = lines(source@);
        let mut found: Vec<String> = Vec::new();
        let mut i: usize = ls.len();
        assert(vviews(ls@) == all);
        assert(all.subrange(all.len() as int, all.len() as int) =~= Seq::<Seq<char>>::empty());
        while i > 0
            invariant
                0 <= i <= ls.len(),
                vviews(ls@) == all,
                texts_of(found@).reverse() == imports_of(all.subrange(i as int, all.len() as int)),
            decreases i,
        {
            let ghost rest = all.subrange(i - 1, all.len() as int);
            assert(rest[0] == ls@[i - 1]@);
            assert(rest.drop_first() =~= all.subrange(i as int, all.len() as int));
            let t = trim_vec(&ls[i - 1]);
            let ghost before = texts_of(found@);
            match import_in_line(&t) {
                Some(n) => {
                    found.push(n);
                    assert(texts_of(found@) =~= before.push(n@));
                    assert(before.push(n@).reverse() =~= seq![n@] + before.reverse());
                },
                None => {},
            }
            i = i - 1;
        }
        assert(all.subrange(0, all.len() as int) =~= all);
        let mut r: Vec<String> = Vec::new();
        let mut k: usize = found.len();
        while k > 0
            invariant
                0 <= k <= found.len(),
                r@.len() == found.len() - k,
                texts_of(r@) == texts_of(found@).reverse().subrange(0, (found.len() - k) as int),
            decreases k,
        {
            r.push(copy_string(&found[k - 1]));
            proof {
                let fr = texts_of(found@).reverse();
                assert(fr[(found.len() - k) as int] == found@[k - 1]@);
                assert(texts_of(r@) =~= fr.subrange(0, (found.len() - k + 1) as int));
            }
            k = k - 1;
        }
        assert(texts_of(found@).reverse().subrange(0, found.len() as int) =~= texts_of(found@).reverse());
        r
    }

    /// The module of file `path` with text `source`: named by the file stem
    /// (`unknown` when there is none), with the imports of its text.
    pub fn from_source(path: &str, source: String) -> (m: Module)
        ensures
            m.name@ == module_name_of(path@),
            m.path@ == path@,
            m.source@ == source@,
            texts_of(m.imports@) == imports_of(lines(source@)),
    {
        let name = match file_stem_of(path) {
            Some(n) => n,
            None => String::from_str("unknown"),
        };
        let imports = Self::extract_imports(source.as_str());
        Module { name, path: String::from_str(path), source, imports }
    }
}

/// The file name of module `name`.
pub open spec fn module_file(name: Seq<char>) -> Seq<char> {
    name + ".hust"@
}

/// Where module `name` may lie, in the order they are tried: in each search
/// path under the project directory, then in the project directory itself.
pub open spec fn module_candidates_spec(paths: Seq<Seq<char>>, name: Seq<char>, dir: Seq<char>) -> Seq<Seq<char>> {
    paths.map_values(|p: Seq<char>| path_join(path_join(dir, p), module_file(name))) + seq![
        path_join(dir, module_file(name)),
    ]
}

/// The first position of `true` in `b`.
pub open spec fn first_true(b: Seq<bool>) -> Option<int>
    decreases b.len(),
{
    if b.len() == 0 {
        None
    } else if b[0] {
        Some(0)
    } else {
        match first_true(b.drop_first()) {
            Some(i) => Some(i + 1),
            None => None,
        }
    }
}

impl ProjectConfig {
    /// Where module `module_name` may lie under `project_dir`, in the order
    /// they are tried.
    pub fn module_candidates(&self, module_name: &str, project_dir: &str) -> (r: Vec<String>)
        ensures
            texts_of(r@) == module_candidates_spec(texts_of(self.module_paths@), module_name@, project_dir@),
    {
        let mut file: Vec<char> = chars_of(module_name);
        push_str(&mut file, ".hust");
        let fname = string_of(&file);
        let ghost want = module_candidates_spec(texts_of(self.module_paths@), module_name@, project_dir@);
        let mut r: Vec<String> = Vec::new();
        let mut i: usize = 0;
        while i < self.module_paths.len()
            invariant
                0 <= i <= self.module_paths.len(),
                fname@ == module_file(module_name@),
                want == module_candidates_spec(texts_of(self.module_paths@), module_name@, project_dir@),
                r@.len() == i,
                texts_of(r@) == want.subrange(0, i as int),
            decreases self.module_paths.len() - i,
        {
            let base = join_path(project_dir, self.module_paths[i].as_str());
            let c = join_path(base.as_str(), fname.as_str());
            r.push(c);
            assert(texts_of(r@) =~= want.subrange(0, i + 1));
            i = i + 1;
        }
        let last = join_path(project_dir, fname.as_str());
        r.push(last);
        proof {
            let n = self.module_paths@.len() as int;
            assert(want.len() == n + 1);
            assert(want[n] == last@);
            assert forall|j: int| 0 <= j < n + 1 implies texts_of(r@)[j] == want[j] by {
                if j < n {
                    assert(texts_of(r@)[j] == want.subrange(0, n)[j]);
                }
            }
            assert(texts_of(r@) =~= want);
        }
        r
    }

    /// Module `module_name`'s file: the first candidate of
    /// [`Self::module_candidates`] that exists, where `exists[i]` tells
    /// whether candidate `i` does; `ModuleNotFound` when none does.
    pub fn find_module(&self, module_name: &str, project_dir: &str, exists: &Vec<bool>) -> (r: Result<
        String,
        ProjectError,
    >)
        requires
            exists@.len() == self.module_paths@.len() + 1,
        ensures
            match first_true(exists@) {
                Some(i) => r matches Ok(p) && p@ == module_candidates_spec(
                    texts_of(self.module_paths@),
                    module_name@,
                    project_dir@,
                )[i],
                None => r matches Err(e) && e@ == ProjectErrorView::ModuleNotFound(module_name@),
            },
    {
        let cands = self.module_candidates(module_name, project_dir);
        assert(texts_of(cands@).len() == cands@.len());
        let mut i: usize = 0;
        while i < exists.len()
            invariant
                0 <= i <= exists.len(),
                exists@.len() == cands@.len(),
                texts_of(cands@) == module_candidates_spec(
                    texts_of(self.module_paths@),
                    module_name@,
                    project_dir@,
                ),
                forall|k: int| 0 <= k < i ==> !exists@[k],
            decreases exists.len() - i,
        {
            if exists[i] {
                proof {
                    lemma_first_true(exists@, i as int);
                    assert(texts_of(cands@)[i as int] == cands@[i as int]@);
                }
                return Ok(copy_string(&cands[i]));
            }
            i = i + 1;
        }
        proof {
            lemma_first_true(exists@, i as int);
        }
        Err(ProjectError::ModuleNotFound(String::from_str(module_name)))
    }
}

proof fn lemma_first_true(b: Seq<bool>, i: int)
    requires
        0 <= i <= b.len(),
        forall|k: int| 0 <= k < i ==> !b[k],
        i == b.len() || b[i],
    ensures
        first_true(b) == if i == b.len() {
            None::<int>
        } else {
            Some(i)
        },
    decreases i,
{
    if i > 0 {
        let t = b.drop_first();
        assert forall|k: int| 0 <= k < i - 1 implies !t[k] by {
            assert(t[k] == b[k + 1]);
        }
        if i < b.len() {
            assert(t[i - 1] == b[i]);
        }
        lemma_first_true(t, i - 1);
    }
}

} // verus!
