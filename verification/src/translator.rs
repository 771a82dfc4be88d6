//! Hust-to-Rust translation: the transformation rules and the helpers they
//! share.
use vstd::prelude::*;
use crate::text::{
    parses_usize, parses_usize_vec, last_idx_of, rfind_char, lemma_idx_of_bounds, lines, split_lines, blank_or_comment, is_blank_or_comment, strip_lead_vec, strip_trail_vec, remove_all, remove_all_vec, sub_vec_copy, strip_both, strip_lead, strip_trail, find_text, ends_with_vec, has_suffix, trim_end, trim_end_bound, skip_ws, trim_start,
    append_vec, chars_of, find, find_vec, has_char, idx_of, is_ws, is_ws_char, push_str,
    split_on, split_vec, string_of, string_of_range, sub_vec, trim, trim_bounds, trim_vec,
    vviews, same_text, occurs_at, contains, has_prefix, starts_with_str, byte_off, char_boundary,
    char_at_byte, byte_at_char, lemma_byte_off_inj,
};
use crate::table::{index_in, lookup, str_eq, StrMap};
use crate::pattern::{
    escaped, grp, groups_view, has_grp, matches_view, regex_error, regex_escape, regex_scan,
    regex_search, replace_all_const, replace_const, splice, splice_texts, strings, group, has_group,
    match_end, match_ends, whole, regex_valid, lemma_first_match_within,
};

verus! {

/// Errors of translation. A failed read carries the reader's message.
#[derive(Debug)]
pub enum TranspileError {
    FileRead(String),
    ParseError(String),
    TransformError(String),
    WriteError(String),
}

/// The content of a [`TranspileError`].
pub enum TranspileErrorView {
    FileRead(Seq<char>),
    ParseError(Seq<char>),
    TransformError(Seq<char>),
    WriteError(Seq<char>),
}

impl View for TranspileError {
    type V = TranspileErrorView;

    open spec fn view(&self) -> TranspileErrorView {
        match self {
            TranspileError::FileRead(s) => TranspileErrorView::FileRead(s@),
            TranspileError::ParseError(s) => TranspileErrorView::ParseError(s@),
            TranspileError::TransformError(s) => TranspileErrorView::TransformError(s@),
            TranspileError::WriteError(s) => TranspileErrorView::WriteError(s@),
        }
    }
}

/// The text an error is shown with.
pub open spec fn transpile_error_text(e: TranspileErrorView) -> Seq<char> {
    match e {
        TranspileErrorView::FileRead(s) => "File read failed: "@ + s,
        TranspileErrorView::ParseError(s) => "Parse error: "@ + s,
        TranspileErrorView::TransformError(s) => "Transform error: "@ + s,
        TranspileErrorView::WriteError(s) => "Write error: "@ + s,
    }
}

impl TranspileError {
    /// The text the error is shown with.
    pub fn message(&self) -> (r: String)
        ensures
            r@ == transpile_error_text(self@),
    {
        let mut v: Vec<char> = Vec::new();
        match self {
            TranspileError::FileRead(s) => {
                push_str(&mut v, "File read failed: ");
                push_str(&mut v, s.as_str());
            },
            TranspileError::ParseError(s) => {
                push_str(&mut v, "Parse error: ");
                push_str(&mut v, s.as_str());
            },
            TranspileError::TransformError(s) => {
                push_str(&mut v, "Transform error: ");
                push_str(&mut v, s.as_str());
            },
            TranspileError::WriteError(s) => {
                push_str(&mut v, "Write error: ");
                push_str(&mut v, s.as_str());
            },
        }
        string_of(&v)
    }
}

/// The module being translated among several.
#[derive(Debug, Clone)]
pub struct ModuleContext {
    pub current_module: String,
    pub imports: Vec<String>,
    /// Public functions of the module, each once.
    pub public_functions: Vec<String>,
}

/// Translation options.
#[derive(Debug, Clone)]
pub struct TranspileOptions {
    pub preserve_comments: bool,
    pub debug: bool,
    pub enable_all_plugins: bool,
    pub module_context: Option<ModuleContext>,
}

impl Default for TranspileOptions {
    fn default() -> (o: Self)
        ensures
            !o.preserve_comments,
            !o.debug,
            !o.enable_all_plugins,
            o.module_context is None,
    {
        TranspileOptions {
            preserve_comments: false,
            debug: false,
            enable_all_plugins: false,
            module_context: None,
        }
    }
}

/// The translator.
#[derive(Debug)]
pub struct Translator {
    pub options: TranspileOptions,
}

// Whether `c` has the Unicode `Uppercase` property.
pub uninterp spec fn uppercase(c: char) -> bool;

/// `char::is_uppercase`. Claimed, as documented for ASCII: of the ASCII
/// characters exactly `A` to `Z` are uppercase. Other characters' answers
/// come from Unicode's tables and are named, not stated.
#[verifier::external_body]
fn is_uppercase(c: char) -> (b: bool)
    ensures
        b == uppercase(c),
        ('A' <= c && c <= 'Z') ==> b,
        (c < '\u{80}' && !('A' <= c && c <= 'Z')) ==> !b,
{
    c.is_uppercase()
}

/// `char::to_ascii_lowercase`.
pub open spec fn ascii_lower(c: char) -> char {
    if 'A' <= c && c <= 'Z' {
        ((c as u32) + 32) as char
    } else {
        c
    }
}

fn to_ascii_lower(c: char) -> (r: char)
    ensures
        r == ascii_lower(c),
{
    if 'A' <= c && c <= 'Z' {
        let code: u8 = (c as u32 + 32) as u8;
        code as char
    } else {
        c
    }
}

/// Whether `c` is uppercase: of the ASCII characters exactly `A` to `Z`;
/// beyond ASCII, as Unicode says.
pub open spec fn is_upper(c: char) -> bool {
    if '\u{80}' > c {
        'A' <= c && c <= 'Z'
    } else {
        uppercase(c)
    }
}

/// camelCase to snake_case: every character lowered (ASCII), and an
/// underscore before each uppercase character but the first.
pub open spec fn snake(s: Seq<char>) -> Seq<char>
    decreases s.len(),
{
    if s.len() == 0 {
        Seq::empty()
    } else {
        let c = s.last();
        if is_upper(c) && s.len() > 1 {
            snake(s.drop_last()) + seq!['_', ascii_lower(c)]
        } else {
            snake(s.drop_last()).push(ascii_lower(c))
        }
    }
}

/// The primitive types of Hust.
pub open spec fn primitive(t: Seq<char>) -> bool {
    ||| t == "i8"@
    ||| t == "i16"@
    ||| t == "i32"@
    ||| t == "i64"@
    ||| t == "u8"@
    ||| t == "u16"@
    ||| t == "u32"@
    ||| t == "u64"@
    ||| t == "f32"@
    ||| t == "f64"@
    ||| t == "bool"@
    ||| t == "char"@
    ||| t == "String"@
}

/// Every character is an ASCII digit (true of the empty text).
pub open spec fn all_digits(s: Seq<char>) -> bool {
    forall|i: int| 0 <= i < s.len() ==> '0' <= #[trigger] s[i] && s[i] <= '9'
}

/// An array dimension in Rust: a literal stays, a constant's name is
/// converted with `as usize`.
pub open spec fn dim_text(d: Seq<char>) -> Seq<char> {
    if all_digits(d) {
        d
    } else {
        d + " as usize"@
    }
}

/// The whitespace-separated words of `s` after `cur` (the word being read)
/// and `acc` (the words read), as `str::split_whitespace` gives them.
pub open spec fn words_from(s: Seq<char>, cur: Seq<char>, acc: Seq<Seq<char>>) -> Seq<Seq<char>>
    decreases s.len(),
{
    if s.len() == 0 {
        if cur.len() > 0 { acc.push(cur) } else { acc }
    } else if is_ws(s[0]) {
        words_from(s.drop_first(), Seq::empty(), if cur.len() > 0 { acc.push(cur) } else { acc })
    } else {
        words_from(s.drop_first(), cur.push(s[0]), acc)
    }
}

/// `str::split_whitespace`.
pub open spec fn words(s: Seq<char>) -> Seq<Seq<char>> {
    words_from(s, Seq::empty(), Seq::empty())
}

/// One parameter `type name` as `name: type`; anything else as written.
pub open spec fn param_text(p: Seq<char>) -> Seq<char> {
    let w = words(p);
    if w.len() == 2 {
        w[1] + ": "@ + w[0]
    } else {
        p
    }
}

/// The parameters among trimmed pieces `ps`, translated, skipping empty ones.
pub open spec fn params_list(ps: Seq<Seq<char>>) -> Seq<Seq<char>>
    decreases ps.len(),
{
    if ps.len() == 0 {
        Seq::empty()
    } else {
        let rest = params_list(ps.drop_last());
        let p = trim(ps.last());
        if p.len() == 0 {
            rest
        } else {
            rest.push(param_text(p))
        }
    }
}

/// Texts joined with `sep` between them.
pub open spec fn join(v: Seq<Seq<char>>, sep: Seq<char>) -> Seq<char>
    decreases v.len(),
{
    if v.len() == 0 {
        Seq::empty()
    } else if v.len() == 1 {
        v[0]
    } else {
        join(v.drop_last(), sep) + sep + v.last()
    }
}

/// C-style parameters `i32 a, i32 b` as Rust's `a: i32, b: i32`.
pub open spec fn params_text(params: Seq<char>) -> Seq<char> {
    if trim(params).len() == 0 {
        Seq::empty()
    } else {
        join(params_list(split_on(params, ',')), ", "@)
    }
}

/// Method parameters following `self`: a leading `, ` when there are any.
pub open spec fn method_params_text(params: Seq<char>) -> Seq<char> {
    if trim(params).len() == 0 {
        Seq::empty()
    } else {
        ", "@ + params_text(params)
    }
}

/// The text between the first and the second occurrence of `p` in `s`
/// (the rest of `s` when there is no second), as `s.split(p).nth(1)` gives
/// it when `p` occurs.
pub open spec fn second_piece(s: Seq<char>, p: Seq<char>) -> Seq<char> {
    match find(s, p) {
        Some(i) => {
            let rest = s.subrange(i + p.len(), s.len() as int);
            match find(rest, p) {
                Some(j) => rest.subrange(0, j),
                None => rest,
            }
        },
        None => Seq::empty(),
    }
}

/// A loop condition `i < 4` read as its comparison and its limit.
pub open spec fn condition_parts(c: Seq<char>) -> (Seq<char>, Seq<char>) {
    if contains(c, "<="@) {
        ("<="@, trim(second_piece(c, "<="@)))
    } else if contains(c, "<"@) {
        ("<"@, trim(second_piece(c, "<"@)))
    } else if contains(c, ">="@) {
        (">="@, trim(second_piece(c, ">="@)))
    } else if contains(c, ">"@) {
        (">"@, trim(second_piece(c, ">"@)))
    } else {
        ("<"@, "0"@)
    }
}

/// `str::split_whitespace` on a character vector.
pub fn words_vec(v: &Vec<char>) -> (r: Vec<Vec<char>>)
    ensures
        vviews(r@) == words(v@),
{
    let mut acc: Vec<Vec<char>> = Vec::new();
    let mut cur: Vec<char> = Vec::new();
    let mut i: usize = 0;
    assert(v@.subrange(0, v@.len() as int) =~= v@);
    assert(cur@ =~= Seq::<char>::empty());
    assert(vviews(acc@) =~= Seq::<Seq<char>>::empty());
    while i < v.len()
        invariant
            0 <= i <= v.len(),
            words(v@) == words_from(v@.subrange(i as int, v@.len() as int), cur@, vviews(acc@)),
        decreases v.len() - i,
    {
        let ghost rest = v@.subrange(i as int, v@.len() as int);
        assert(rest[0] == v@[i as int]);
        assert(rest.drop_first() =~= v@.subrange(i + 1, v@.len() as int));
        if is_ws_char(v[i]) {
            if cur.len() > 0 {
                let ghost a0 = vviews(acc@);
                acc.push(cur);
                assert(vviews(acc@) =~= a0.push(cur@));
            }
            cur = Vec::new();
            assert(cur@ =~= Seq::<char>::empty());
        } else {
            cur.push(v[i]);
        }
        i = i + 1;
    }
    if cur.len() > 0 {
        let ghost a0 = vviews(acc@);
        acc.push(cur);
        assert(vviews(acc@) =~= a0.push(cur@));
    }
    acc
}

/// Texts `v` joined with `sep` between them.
pub fn join_vec(v: &Vec<Vec<char>>, sep: &str) -> (r: Vec<char>)
    ensures
        r@ == join(vviews(v@), sep@),
{
    let mut out: Vec<char> = Vec::new();
    let mut i: usize = 0;
    while i < v.len()
        invariant
            0 <= i <= v.len(),
            out@ == join(vviews(v@).subrange(0, i as int), sep@),
        decreases v.len() - i,
    {
        let ghost pre = vviews(v@).subrange(0, i + 1);
        assert(pre.drop_last() =~= vviews(v@).subrange(0, i as int));
        if i > 0 {
            push_str(&mut out, sep);
        }
        append_vec(&mut out, &v[i]);
        proof {
            if i == 0 {
                assert(pre.len() == 1);
                assert(out@ =~= pre[0]);
            }
        }
        i = i + 1;
    }
    assert(vviews(v@).subrange(0, v.len() as int) =~= vviews(v@));
    out
}

/// One parameter translated.
fn param_vec(p: &Vec<char>) -> (r: Vec<char>)
    ensures
        r@ == param_text(p@),
{
    let w = words_vec(p);
    if w.len() == 2 {
        let mut out = sub_vec(&w[1], 0, w[1].len());
        assert(w@[1]@.subrange(0, w@[1]@.len() as int) =~= w@[1]@);
        push_str(&mut out, ": ");
        append_vec(&mut out, &w[0]);
        assert(vviews(w@)[0] == w@[0]@ && vviews(w@)[1] == w@[1]@);
        out
    } else {
        let out = sub_vec(p, 0, p.len());
        assert(p@.subrange(0, p@.len() as int) =~= p@);
        out
    }
}

/// C-style parameters as Rust parameters.
fn params_vec(params: &Vec<char>) -> (r: Vec<char>)
    ensures
        r@ == params_text(params@),
{
    let t = trim_vec(params);
    if t.len() == 0 {
        return Vec::new();
    }
    let pieces = split_vec(params, ',');
    let ghost ps = vviews(pieces@);
    let mut out: Vec<Vec<char>> = Vec::new();
    let mut i: usize = 0;
    while i < pieces.len()
        invariant
            0 <= i <= pieces.len(),
            ps == vviews(pieces@),
            vviews(out@) == params_list(ps.subrange(0, i as int)),
        decreases pieces.len() - i,
    {
        let ghost pre = ps.subrange(0, i + 1);
        assert(pre.drop_last() =~= ps.subrange(0, i as int));
        assert(pre.last() == pieces@[i as int]@);
        let p = trim_vec(&pieces[i]);
        if p.len() > 0 {
            let q = param_vec(&p);
            let ghost o0 = vviews(out@);
            out.push(q);
            assert(vviews(out@) =~= o0.push(q@));
        }
        i = i + 1;
    }
    assert(ps.subrange(0, pieces.len() as int) =~= ps);
    join_vec(&out, ", ")
}

/// Visibility of a class member.
#[derive(Debug)]
pub enum Visibility {
    Public,
    Private,
}

/// A field of a class.
#[derive(Debug)]
pub struct ClassField {
    pub name: String,
    pub ty: String,
    pub visibility: Visibility,
}

/// A method of a class; `body` holds its braces.
#[derive(Debug)]
pub struct ClassMethod {
    pub name: String,
    pub ret_type: String,
    pub params: String,
    pub body: Option<String>,
    pub visibility: Visibility,
}

/// The nested classes found in a source.
#[derive(Debug)]
pub struct NestedClassTable {
    /// inner class name -> outer class name
    pub inner_to_outer: StrMap<String>,
    /// `Outer.Inner` -> the inner class's definition
    pub nested_defs: StrMap<String>,
}

/// What the inheritance table records of a class.
#[derive(Debug)]
pub struct ClassInfo {
    pub parent: Option<String>,
    pub interfaces: Vec<String>,
}

/// `pub ` for a public member, nothing for a private one.
pub open spec fn vis_text(v: Visibility) -> Seq<char> {
    match v {
        Visibility::Public => "pub "@,
        Visibility::Private => Seq::empty(),
    }
}

/// Some string of `v` holds `x`.
pub open spec fn holds_text(v: Seq<String>, x: Seq<char>) -> bool {
    exists|i: int| 0 <= i < v.len() && v[i]@ == x
}

/// Class `class` of table `t` implements interface `iface`.
pub open spec fn implements(t: Seq<(String, ClassInfo)>, class: Seq<char>, iface: Seq<char>) -> bool {
    match lookup(t, class) {
        Some(info) => holds_text(info.interfaces@, iface),
        None => false,
    }
}

/// The struct lines of fields `fs`.
pub open spec fn fields_text(fs: Seq<ClassField>) -> Seq<char>
    decreases fs.len(),
{
    if fs.len() == 0 {
        Seq::empty()
    } else {
        let f = fs.last();
        fields_text(fs.drop_last()) + "\n    "@ + vis_text(f.visibility) + snake(f.name@) + ": "@
            + f.ty@ + ","@
    }
}

/// The Rust struct of a class: a field named after the parent holding it,
/// then the class's own fields.
pub open spec fn struct_text(class: Seq<char>, fs: Seq<ClassField>, parent: Option<Seq<char>>, is_public: bool) -> Seq<char> {
    "#[derive(Default)]\n"@ + (if is_public { "pub "@ } else { Seq::empty() }) + "struct "@ + class
        + " {"@ + (match parent {
        Some(p) => "\n    "@ + p + ": "@ + p + ","@,
        None => Seq::empty(),
    }) + fields_text(fs) + "\n}\n"@
}

/// Whether some string of `v` is `x`.
pub fn contains_text(v: &Vec<String>, x: &str) -> (b: bool)
    ensures
        b == holds_text(v@, x@),
{
    let mut i: usize = 0;
    while i < v.len()
        invariant
            0 <= i <= v.len(),
            forall|j: int| 0 <= j < i ==> v@[j]@ != x@,
        decreases v.len() - i,
    {
        if str_eq(v[i].as_str(), x) {
            return true;
        }
        i = i + 1;
    }
    false
}

/// The replacement of a method call `.name(`: the name in snake_case.
pub open spec fn snake_call_rep(c: Seq<Option<Seq<char>>>) -> Seq<char> {
    "."@ + snake(grp(c, 1)) + "("@
}

/// What the method-call pattern finds in `s`, with each call renamed to
/// snake_case; `None` when the pattern is refused.
pub open spec fn snake_calls(s: Seq<char>) -> Option<Seq<char>> {
    match regex_scan(r"\.([a-z][a-zA-Z0-9]*)\s*\("@, s) {
        Some((g, m)) => Some(splice(g, m.map_values(|c: Seq<Option<Seq<char>>>| snake_call_rep(c)))),
        None => None,
    }
}

/// The pattern of an access to inherited field `field`.
pub open spec fn field_access_pat(field: Seq<char>) -> Seq<char> {
    r"(?<!\.)\b(\w+)\."@ + escaped(field) + r"(?![\w(])"@
}

/// Accesses `obj.field` in `s` rewritten as `obj.path` (the text after
/// `obj.` replaced by `path`); `s` itself when the pattern is refused.
pub open spec fn field_path_rewrite(s: Seq<char>, field: Seq<char>, path: Seq<char>) -> Seq<char> {
    match regex_scan(field_access_pat(field), s) {
        Some((g, m)) => splice(g, m.map_values(|c: Seq<Option<Seq<char>>>| grp(c, 1) + "."@ + path)),
        None => s,
    }
}

/// Every field of `map` rewritten to its path, in the order of `map`.
pub open spec fn field_paths_rewrite(s: Seq<char>, map: Seq<(Seq<char>, Seq<char>)>) -> Seq<char>
    decreases map.len(),
{
    if map.len() == 0 {
        s
    } else {
        field_path_rewrite(field_paths_rewrite(s, map.drop_last()), map.last().0, map.last().1)
    }
}

/// A method body in Rust: `this` becomes `self`, inherited fields take
/// their path (when a map is given), `super(...)` calls are removed and
/// method calls are renamed to snake_case.
pub open spec fn self_refs(body: Seq<char>, map: Option<Seq<(Seq<char>, Seq<char>)>>) -> Seq<char> {
    let a = replace_const(r"\bthis\b"@, body, "self"@);
    let b = match map {
        Some(m) => field_paths_rewrite(a, m),
        None => a,
    };
    let c = replace_const(r"\bsuper\s*\([^)]*\)\s*;"@, b, "// super() call removed"@);
    match snake_calls(c) {
        Some(d) => d,
        None => c,
    }
}

/// A method body without its braces.
pub open spec fn unbraced(b: Seq<char>) -> Seq<char> {
    strip_trail(strip_lead(b, '{'), '}')
}

/// A method of a trait impl, when its snake_case name is a member of the
/// interface (`tm`); nothing otherwise.
pub open spec fn trait_method_text(m: ClassMethod, tm: Seq<String>) -> Seq<char> {
    let rn = snake(m.name@);
    if !holds_text(tm, rn) {
        Seq::empty()
    } else {
        "\n    fn "@ + rn + "(&self"@ + method_params_text(m.params@) + (if m.ret_type@ == "void"@ {
            ") {"@
        } else {
            ") -> "@ + m.ret_type@ + " {"@
        }) + (match m.body {
            Some(b) => self_refs(unbraced(b@), None),
            None => Seq::empty(),
        }) + "\n    }"@
    }
}

/// The trait-impl methods of `ms`.
pub open spec fn trait_methods_text(ms: Seq<ClassMethod>, tm: Seq<String>) -> Seq<char>
    decreases ms.len(),
{
    if ms.len() == 0 {
        Seq::empty()
    } else {
        trait_methods_text(ms.drop_last(), tm) + trait_method_text(ms.last(), tm)
    }
}

/// The impl of interface `iface` for class `class`.
pub open spec fn trait_impl_text(class: Seq<char>, iface: Seq<char>, ms: Seq<ClassMethod>, tm: Seq<String>) -> Seq<char> {
    "impl "@ + iface + " for "@ + class + " {"@ + trait_methods_text(ms, tm) + "\n}\n"@
}

/// The pattern of a field declaration in a class body.
pub open spec fn field_decl_pat() -> Seq<char> {
    r"(?m)^\s*(?:public\s+|private\s+)?(\w+(?:\[\d+\])?)\s+([a-zA-Z_]\w*)\s*(?:=[^;]*)?;\s*$"@
}

/// The pattern of the definition of class `class`.
pub open spec fn class_def_pat(class: Seq<char>) -> Seq<char> {
    r"(?m)^\s*class\s+"@ + escaped(class) + r"\s*(?:extends\s+\w+)?\s*(?:implements\s+[\w,\s]+)?\s*\{([\s\S]*?)^\}"@
}

/// The next non-blank character of `s` is `(`.
pub open spec fn paren_next(s: Seq<char>) -> bool {
    trim_start(s).len() > 0 && trim_start(s)[0] == '('
}

/// The field names declared by the first `k` matches `m` (pieces `g`) of
/// the field pattern in `body`, each once: a match followed by `(` is a
/// call, not a declaration.
pub open spec fn body_fields(body: Seq<char>, g: Seq<Seq<char>>, m: Seq<Seq<Option<Seq<char>>>>, k: int) -> Seq<Seq<char>>
    decreases k,
{
    if k <= 0 {
        Seq::empty()
    } else {
        let prev = body_fields(body, g, m, k - 1);
        let name = grp(m[k - 1], 2);
        let after = body.subrange(match_end(g, whole(m), k - 1), body.len() as int);
        if !paren_next(after) && !prev.contains(name) {
            prev.push(name)
        } else {
            prev
        }
    }
}

/// The fields declared in class body `body`.
pub open spec fn fields_of_body(body: Seq<char>) -> Seq<Seq<char>> {
    match regex_scan(field_decl_pat(), body) {
        Some((g, m)) => body_fields(body, g, m, m.len() as int),
        None => Seq::empty(),
    }
}

/// The fields of the first definition of class `class` in `source`.
pub open spec fn class_fields(source: Seq<char>, class: Seq<char>) -> Seq<Seq<char>> {
    match regex_scan(class_def_pat(class), source) {
        Some((g, m)) => if m.len() > 0 {
            fields_of_body(grp(m[0], 1))
        } else {
            Seq::empty()
        },
        None => Seq::empty(),
    }
}

/// The parent recorded for class `c` in table `t`.
pub open spec fn parent_of(t: Seq<(String, ClassInfo)>, c: Seq<char>) -> Option<Seq<char>> {
    match lookup(t, c) {
        Some(info) => match info.parent {
            Some(p) => Some(p@),
            None => None,
        },
        None => None,
    }
}

/// The ancestors met walking up from `cur` after `seen`: each name not met
/// before, then its parent, stopping at a repeat, an unknown parent or
/// after `fuel` steps. A table of `n` entries never needs more than `n + 1`.
pub open spec fn chain(t: Seq<(String, ClassInfo)>, cur: Option<Seq<char>>, seen: Seq<Seq<char>>, fuel: nat) -> Seq<Seq<char>>
    decreases fuel,
{
    match cur {
        Some(p) => if fuel == 0 || seen.contains(p) {
            seen
        } else {
            chain(t, parent_of(t, p), seen.push(p), (fuel - 1) as nat)
        },
        None => seen,
    }
}

/// The ancestors of class `c`, nearest first.
pub open spec fn ancestors(t: Seq<(String, ClassInfo)>, c: Seq<char>) -> Seq<Seq<char>> {
    chain(t, parent_of(t, c), Seq::empty(), (t.len() + 1) as nat)
}

/// The path to the `k`-th ancestor: the first `k` names joined by `.`.
pub open spec fn prefix_of(anc: Seq<Seq<char>>, k: int) -> Seq<char>
    decreases k,
{
    if k <= 0 {
        Seq::empty()
    } else {
        let p = prefix_of(anc, k - 1);
        if p.len() == 0 {
            anc[k - 1]
        } else {
            p + "."@ + anc[k - 1]
        }
    }
}

/// The keys of a path map.
pub open spec fn path_keys(m: Seq<(Seq<char>, Seq<char>)>) -> Seq<Seq<char>> {
    m.map_values(|e: (Seq<char>, Seq<char>)| e.0)
}

/// `m` with each field of `fs` that is neither own nor mapped yet mapped
/// to `pfx`.
pub open spec fn add_fields(m: Seq<(Seq<char>, Seq<char>)>, fs: Seq<Seq<char>>, own: Seq<Seq<char>>, pfx: Seq<char>) -> Seq<(Seq<char>, Seq<char>)>
    decreases fs.len(),
{
    if fs.len() == 0 {
        m
    } else {
        let m2 = add_fields(m, fs.drop_last(), own, pfx);
        let f = fs.last();
        if !own.contains(f) && !path_keys(m2).contains(f) {
            m2.push((f, pfx))
        } else {
            m2
        }
    }
}

/// The inherited fields of the first `k` ancestors mapped to their paths.
pub open spec fn paths_upto(source: Seq<char>, anc: Seq<Seq<char>>, own: Seq<Seq<char>>, k: int) -> Seq<(Seq<char>, Seq<char>)>
    decreases k,
{
    if k <= 0 {
        Seq::empty()
    } else {
        add_fields(paths_upto(source, anc, own, k - 1), class_fields(source, anc[k - 1]), own, prefix_of(anc, k))
    }
}

/// The inherited fields of class `c` mapped to the path of the ancestor
/// that declares them (the nearest), for fields `c` does not declare.
pub open spec fn field_paths(source: Seq<char>, t: Seq<(String, ClassInfo)>, c: Seq<char>) -> Seq<(Seq<char>, Seq<char>)> {
    let anc = ancestors(t, c);
    paths_upto(source, anc, class_fields(source, c), anc.len() as int)
}

/// The content of a path map.
pub open spec fn path_map_view(m: Seq<(String, String)>) -> Seq<(Seq<char>, Seq<char>)> {
    m.map_values(|e: (String, String)| (e.0@, e.1@))
}

/// The method body writes a field (`self.x =`, `this.x +=`, `self.a[0] =`).
pub open spec fn writes_field(b: Seq<char>) -> bool {
    match regex_scan(r"(?:self|this)\.\w+(?:\[\d+\])?\s*(?:[-+*/])?="@, b) {
        Some((g, m)) => m.len() > 0,
        None => false,
    }
}

/// A brace-delimited array literal `{a, b}` as Rust's `[a, b]`.
pub open spec fn arrayify(v: Seq<char>) -> Seq<char> {
    if v.len() > 0 && v[0] == '{' && v.last() == '}' {
        "["@ + v.subrange(1, v.len() - 1) + "]"@
    } else {
        v
    }
}

/// The field initializers of a constructor body: each `self.f = v;` as
/// `f: v`.
pub open spec fn ctor_assigns(content: Seq<char>) -> Seq<Seq<char>> {
    match regex_scan(r"(?:self|this)\.(\w+)\s*=\s*([^;]+);"@, content) {
        Some((g, m)) => m.map_values(|c: Seq<Option<Seq<char>>>| grp(c, 1) + ": "@ + arrayify(trim(grp(c, 2)))),
        None => Seq::empty(),
    }
}

/// The arguments of the first `super(...)` call of a body, trimmed.
pub open spec fn super_args(b: Seq<char>) -> Seq<char> {
    match regex_scan(r"super\s*\(([^)]*)\)"@, b) {
        Some((g, m)) => if m.len() > 0 {
            trim(grp(m[0], 1))
        } else {
            Seq::empty()
        },
        None => Seq::empty(),
    }
}

/// A constructor's body in Rust: `Self::default()` without field
/// initializers; else a struct literal, which builds the parent with the
/// `super(...)` arguments when the class has a parent and they are given.
pub open spec fn ctor_body(m: ClassMethod, parent: Option<Seq<char>>) -> Seq<char> {
    let assigns = match m.body {
        Some(b) => ctor_assigns(unbraced(b@)),
        None => Seq::empty(),
    };
    if assigns.len() == 0 {
        "\n        Self::default()"@
    } else {
        match parent {
            Some(p) => {
                let sa = match m.body {
                    Some(b) => super_args(b@),
                    None => Seq::empty(),
                };
                if sa.len() == 0 {
                    "\n        Self { "@ + join(assigns, ", "@) + ", ..Default::default() }"@
                } else {
                    "\n        Self {\n            "@ + p + ": "@ + p + "::new("@ + sa + "),\n            "@
                        + join(assigns, ",\n            "@) + ",\n            ..Default::default()\n        }"@
                }
            },
            None => "\n        Self { "@ + join(assigns, ", "@) + ", ..Default::default() }"@,
        }
    }
}

/// One method of the inherent impl: a constructor (return type `Self`)
/// becomes `new`; other methods take `&mut self` when they write a field,
/// else `&self`, and their bodies are translated with the field paths `fm`.
pub open spec fn inherent_method_text(m: ClassMethod, parent: Option<Seq<char>>, fm: Seq<(Seq<char>, Seq<char>)>) -> Seq<char> {
    let vis = vis_text(m.visibility);
    if m.ret_type@ == "Self"@ {
        let np = params_text(m.params@);
        (if np.len() == 0 {
            "\n    "@ + vis + "fn new() -> Self {"@
        } else {
            "\n    "@ + vis + "fn new("@ + np + ") -> Self {"@
        }) + ctor_body(m, parent) + "\n    }"@
    } else {
        let needs_mut = match m.body {
            Some(b) => writes_field(b@),
            None => false,
        };
        let sp = if needs_mut { "&mut self"@ } else { "&self"@ };
        "\n    "@ + vis + "fn "@ + snake(m.name@) + "("@ + sp + method_params_text(m.params@) + (if m.ret_type@ == "void"@ {
            ") {"@
        } else {
            ") -> "@ + m.ret_type@ + " {"@
        }) + (match m.body {
            Some(b) => self_refs(unbraced(b@), Some(fm)),
            None => "()"@,
        }) + "\n    }"@
    }
}

/// The inherent-impl methods of `ms`.
pub open spec fn inherent_methods_text(ms: Seq<ClassMethod>, parent: Option<Seq<char>>, fm: Seq<(Seq<char>, Seq<char>)>) -> Seq<char>
    decreases ms.len(),
{
    if ms.len() == 0 {
        Seq::empty()
    } else {
        inherent_methods_text(ms.drop_last(), parent, fm) + inherent_method_text(ms.last(), parent, fm)
    }
}

/// The inherent impl of class `class` (parent and field paths from table
/// `t` and `source`).
pub open spec fn inherent_impl_text(class: Seq<char>, ms: Seq<ClassMethod>, t: Seq<(String, ClassInfo)>, source: Seq<char>) -> Seq<char> {
    "impl "@ + class + " {"@ + inherent_methods_text(ms, parent_of(t, class), field_paths(source, t, class)) + "\n}\n"@
}

/// The receiver a delegating impl forwards to: the parent when it
/// implements `iface`; else the first ancestor (along `chain`, after the
/// parent, stopping at a repeat) that does; else the parent; `self` without
/// one.
pub open spec fn deleg_path(t: Seq<(String, ClassInfo)>, iface: Seq<char>, parent: Option<Seq<char>>, chain: Seq<Seq<char>>) -> Seq<char> {
    match parent {
        None => "self"@,
        Some(p) => if implements(t, p, iface) {
            "self."@ + p
        } else {
            match deleg_search(t, iface, chain, 1, seq![p], "self."@ + p) {
                Some(path) => path,
                None => "self."@ + p,
            }
        },
    }
}

/// The search of [`deleg_path`] from `chain[k]`, with the path so far.
pub open spec fn deleg_search(t: Seq<(String, ClassInfo)>, iface: Seq<char>, chain: Seq<Seq<char>>, k: int, visited: Seq<Seq<char>>, path: Seq<char>) -> Option<Seq<char>>
    decreases chain.len() - k,
{
    if k < 0 || k >= chain.len() {
        None
    } else {
        let a = chain[k];
        if visited.contains(a) {
            None
        } else {
            let path2 = path + "."@ + a;
            if implements(t, a, iface) {
                Some(path2)
            } else {
                deleg_search(t, iface, chain, k + 1, visited.push(a), path2)
            }
        }
    }
}

/// The name of one parameter, `name: type` or `type name` (or a lone word).
pub open spec fn param_name(p: Seq<char>) -> Seq<char> {
    let w = words(p);
    if w.len() >= 2 {
        if w[0].len() > 0 && w[0].last() == ':' {
            strip_trail(w[0], ':')
        } else {
            w.last()
        }
    } else if w.len() == 1 {
        w[0]
    } else {
        Seq::empty()
    }
}

/// The names of the non-empty parameters among `ps`.
pub open spec fn param_names(ps: Seq<Seq<char>>) -> Seq<Seq<char>>
    decreases ps.len(),
{
    if ps.len() == 0 {
        Seq::empty()
    } else {
        let rest = param_names(ps.drop_last());
        let p = trim(ps.last());
        if p.len() == 0 {
            rest
        } else {
            rest.push(param_name(p))
        }
    }
}

/// A trait method's parameters without its `self` receiver.
pub open spec fn clean_params(params: Seq<char>) -> Seq<char> {
    trim(strip_lead(trim(remove_all(remove_all(params, "&mut self"@), "&self"@)), ','))
}

/// The parameters of the first `fn NAME(...)` in `source`.
pub open spec fn fn_params_in(source: Seq<char>, name: Seq<char>) -> Seq<char> {
    match regex_scan(r"fn\s+"@ + escaped(name) + r"\s*\(([^)]*)\)"@, source) {
        Some((g, m)) => if m.len() > 0 {
            grp(m[0], 1)
        } else {
            Seq::empty()
        },
        None => Seq::empty(),
    }
}

/// A method forwarding to `path`.
pub open spec fn deleg_method_text(name: Seq<char>, path: Seq<char>, source: Seq<char>) -> Seq<char> {
    let pc = clean_params(fn_params_in(source, name));
    "    fn "@ + name + "("@ + (if pc.len() == 0 {
        "&self"@
    } else {
        "&self, "@ + pc
    }) + ") {\n        "@ + path + "."@ + name + "("@ + join(param_names(split_on(pc, ',')), ", "@) + ")"@
        + "\n    }\n"@
}

/// The forwarding methods for `names`.
pub open spec fn deleg_methods_text(names: Seq<Seq<char>>, path: Seq<char>, source: Seq<char>) -> Seq<char>
    decreases names.len(),
{
    if names.len() == 0 {
        Seq::empty()
    } else {
        deleg_methods_text(names.drop_last(), path, source) + deleg_method_text(names.last(), path, source)
    }
}

/// The impl of `iface` for `class` that forwards each method to the
/// ancestor implementing it.
pub open spec fn deleg_impl_text(class: Seq<char>, iface: Seq<char>, parent: Option<Seq<char>>, chain: Seq<Seq<char>>, names: Seq<Seq<char>>, t: Seq<(String, ClassInfo)>, source: Seq<char>) -> Seq<char> {
    "impl "@ + iface + " for "@ + class + " {\n"@ + deleg_methods_text(names, deleg_path(t, iface, parent, chain), source) + "}\n"@
}

/// The trimmed pieces of `ps`, skipping empty ones.
pub open spec fn nonempty_trimmed(ps: Seq<Seq<char>>) -> Seq<Seq<char>>
    decreases ps.len(),
{
    if ps.len() == 0 {
        Seq::empty()
    } else {
        let rest = nonempty_trimmed(ps.drop_last());
        let p = trim(ps.last());
        if p.len() == 0 {
            rest
        } else {
            rest.push(p)
        }
    }
}

/// The interfaces a class declares (`implements A, B`).
pub open spec fn own_ifaces(interfaces: Option<Seq<char>>) -> Seq<Seq<char>> {
    match interfaces {
        Some(s) => nonempty_trimmed(split_on(s, ',')),
        None => Seq::empty(),
    }
}

/// The keys of `m` not among `own`, in order.
pub open spec fn inherited_ifaces(m: Seq<(String, Vec<String>)>, own: Seq<Seq<char>>) -> Seq<Seq<char>>
    decreases m.len(),
{
    if m.len() == 0 {
        Seq::empty()
    } else {
        let rest = inherited_ifaces(m.drop_last(), own);
        let k = m.last().0@;
        if own.contains(k) {
            rest
        } else {
            rest.push(k)
        }
    }
}

/// The trait impls of class `class` for interfaces `ifs`.
pub open spec fn trait_impls_text(class: Seq<char>, ifs: Seq<Seq<char>>, ms: Seq<ClassMethod>, tm: Seq<String>) -> Seq<char>
    decreases ifs.len(),
{
    if ifs.len() == 0 {
        Seq::empty()
    } else {
        trait_impls_text(class, ifs.drop_last(), ms, tm) + trait_impl_text(class, ifs.last(), ms, tm)
    }
}

/// The methods interface `iface` lists in `m`.
pub open spec fn iface_methods(m: Seq<(String, Vec<String>)>, iface: Seq<char>) -> Seq<Seq<char>> {
    match lookup(m, iface) {
        Some(v) => strings(v@),
        None => Seq::empty(),
    }
}

/// The forwarding impls of class `class` for interfaces `ifs`.
pub open spec fn deleg_impls_text(class: Seq<char>, ifs: Seq<Seq<char>>, parent: Option<Seq<char>>, chain: Seq<Seq<char>>, m: Seq<(String, Vec<String>)>, t: Seq<(String, ClassInfo)>, source: Seq<char>) -> Seq<char>
    decreases ifs.len(),
{
    if ifs.len() == 0 {
        Seq::empty()
    } else {
        deleg_impls_text(class, ifs.drop_last(), parent, chain, m, t, source) + deleg_impl_text(class, ifs.last(), parent, chain, iface_methods(m, ifs.last()), t, source)
    }
}

/// Array dimensions `[d1][d2]...` as Rust nesting around `base`.
pub open spec fn wrap_dims(base: Seq<char>, ds: Seq<Seq<char>>) -> Seq<char>
    decreases ds.len(),
{
    if ds.len() == 0 {
        base
    } else {
        "["@ + wrap_dims(base, ds.drop_first()) + "; "@ + ds[0] + "]"@
    }
}

/// The sizes of the `[N]` groups of `s`.
pub open spec fn dim_sizes(s: Seq<char>) -> Seq<Seq<char>> {
    match regex_scan(r"\[(\d+)\]"@, s) {
        Some((g, m)) => m.map_values(|c: Seq<Option<Seq<char>>>| grp(c, 1)),
        None => Seq::empty(),
    }
}

/// A C-style array type in Rust (`i32[2][3]` is `[[i32; 3]; 2]`); other
/// types unchanged.
pub open spec fn rust_array_type(t: Seq<char>) -> Seq<char> {
    match regex_scan(r"^([a-zA-Z_]\w*)((?:\[\d+\])+)$"@, t) {
        Some((g, m)) => if m.len() > 0 {
            wrap_dims(grp(m[0], 1), dim_sizes(grp(m[0], 2)))
        } else {
            t
        },
        None => t,
    }
}

/// Words that are never a field's type.
pub open spec fn not_a_type(w: Seq<char>) -> bool {
    w == "return"@ || w == "if"@ || w == "else"@ || w == "for"@ || w == "while"@ || w == "let"@
        || w == "fn"@ || w == "match"@ || w == "true"@ || w == "false"@ || w == "println"@
        || w == "print"@ || w == "self"@ || w == "break"@ || w == "continue"@ || w == "pub"@
        || w == "public"@
}

/// `str::trim_end_matches(";")`.
pub open spec fn strip_semis(s: Seq<char>) -> Seq<char> {
    strip_trail(s, ';')
}

/// A field declaration `[public] Type name;` read as (name, Rust type,
/// public); `None` when there are too few words or the type is a keyword.
pub open spec fn field_decl(line: Seq<char>) -> Option<(Seq<char>, Seq<char>, bool)> {
    let w = words(line);
    let is_pub = w.len() > 0 && w[0] == "public"@;
    let idx = if is_pub { 1int } else { 0int };
    if w.len() < idx + 2 {
        None
    } else if not_a_type(w[idx]) {
        None
    } else {
        Some((strip_semis(w[idx + 1]), rust_array_type(w[idx]), is_pub))
    }
}

/// The content of a method: name, return type, parameters, body, public.
pub open spec fn method_view(m: ClassMethod) -> (Seq<char>, Seq<char>, Seq<char>, Option<Seq<char>>, bool) {
    (m.name@, m.ret_type@, m.params@, match m.body {
        Some(b) => Some(b@),
        None => None,
    }, m.visibility is Public)
}

/// A group that may not take part, as an option.
pub open spec fn opt_grp(c: Seq<Option<Seq<char>>>, k: int) -> Option<Seq<char>> {
    if has_grp(c, k) {
        Some(grp(c, k))
    } else {
        None
    }
}

/// A method's text read as a method: a constructor `public Name(...)`
/// (return type `Self`), else `[public] Type name(...) {...}`.
pub open spec fn method_decl(text: Seq<char>) -> Option<(Seq<char>, Seq<char>, Seq<char>, Option<Seq<char>>, bool)> {
    let ctor = match regex_scan(r"(?s)^\s*public\s+([A-Z]\w*)\s*\(([^)]*)\)\s*(\{.*\})?"@, text) {
        Some((g, m)) => if m.len() > 0 {
            Some((grp(m[0], 1), "Self"@, grp(m[0], 2), opt_grp(m[0], 3), true))
        } else {
            None
        },
        None => None,
    };
    match ctor {
        Some(c) => Some(c),
        None => match regex_scan(r"(?s)^\s*(public\s+)?(\w+)\s+([a-zA-Z_]\w*)\s*\(([^)]*)\)\s*(\{.*\})?"@, text) {
            Some((g, m)) => if m.len() > 0 {
                Some((grp(m[0], 3), grp(m[0], 2), grp(m[0], 4), opt_grp(m[0], 5), has_grp(m[0], 1)))
            } else {
                None
            },
            None => None,
        },
    }
}

/// The pattern of a method signature's start in a class body.
pub open spec fn method_sig_pat() -> Seq<char> {
    r"(?s)(public\s+)?(?:(\w+)\s+)?([a-zA-Z_]\w*)\s*\(([^)]*)\)\s*\{"@
}

/// Where a method body that is open at depth `depth` ends: just after its
/// closing brace, scanning from `p` (in a string literal when `ins`, where
/// a backslash passes over itself only).
pub open spec fn span_end(b: Seq<char>, p: int, depth: int, ins: bool) -> int
    decreases b.len() - p,
{
    if p < 0 || p >= b.len() {
        p
    } else {
        let c = b[p];
        if ins {
            if c == '\\' {
                span_end(b, p + 1, depth, ins)
            } else {
                span_end(b, p + 1, depth, c != '"')
            }
        } else if c == '"' {
            span_end(b, p + 1, depth, true)
        } else if c == '{' {
            span_end(b, p + 1, depth + 1, false)
        } else if c == '}' {
            if depth - 1 == 0 {
                p + 1
            } else {
                span_end(b, p + 1, depth - 1, false)
            }
        } else {
            span_end(b, p + 1, depth, false)
        }
    }
}

/// The methods of class body `b` from `pos`: each signature found by the
/// method pattern and its brace-matched body, as (start, end).
pub open spec fn method_spans(b: Seq<char>, pos: int) -> Seq<(int, int)>
    decreases b.len() - pos,
{
    if pos < 0 || pos > b.len() {
        Seq::empty()
    } else {
        match regex_scan(method_sig_pat(), b.subrange(pos, b.len() as int)) {
            Some((g, m)) => if m.len() > 0 {
                let st = pos + g[0].len();
                let en = st + grp(m[0], 0).len();
                let e = span_end(b, en, 1, false);
                if pos < e <= b.len() {
                    seq![(st, e)] + method_spans(b, e)
                } else {
                    Seq::empty()
                }
            } else {
                Seq::empty()
            },
            None => Seq::empty(),
        }
    }
}

/// The text of `b` outside `spans`, from `last` on.
pub open spec fn outside_spans(b: Seq<char>, spans: Seq<(int, int)>, last: int) -> Seq<char>
    decreases spans.len(),
{
    if spans.len() == 0 {
        b.subrange(last, b.len() as int)
    } else {
        b.subrange(last, spans[0].0) + outside_spans(b, spans.drop_first(), spans[0].1)
    }
}

/// The methods read from `spans`, skipping those that do not parse.
pub open spec fn span_methods(b: Seq<char>, spans: Seq<(int, int)>) -> Seq<(Seq<char>, Seq<char>, Seq<char>, Option<Seq<char>>, bool)>
    decreases spans.len(),
{
    if spans.len() == 0 {
        Seq::empty()
    } else {
        let rest = span_methods(b, spans.drop_last());
        match method_decl(b.subrange(spans.last().0, spans.last().1)) {
            Some(m) => rest.push(m),
            None => rest,
        }
    }
}

/// The fields declared by lines `ls`, skipping blank and comment lines and
/// lines that do not parse.
pub open spec fn line_fields(ls: Seq<Seq<char>>) -> Seq<(Seq<char>, Seq<char>, bool)>
    decreases ls.len(),
{
    if ls.len() == 0 {
        Seq::empty()
    } else {
        let rest = line_fields(ls.drop_last());
        if blank_or_comment(trim(ls.last())) {
            rest
        } else {
            match field_decl(ls.last()) {
                Some(f) => rest.push(f),
                None => rest,
            }
        }
    }
}

/// A class body read as its fields and its methods.
pub open spec fn class_body(b: Seq<char>) -> (Seq<(Seq<char>, Seq<char>, bool)>, Seq<(Seq<char>, Seq<char>, Seq<char>, Option<Seq<char>>, bool)>) {
    let spans = method_spans(b, 0);
    (line_fields(lines(outside_spans(b, spans, 0))), span_methods(b, spans))
}

/// The content of a field.
pub open spec fn field_view(f: ClassField) -> (Seq<char>, Seq<char>, bool) {
    (f.name@, f.ty@, f.visibility is Public)
}

/// A flattened nested class's fields as struct lines.
pub open spec fn flat_fields_text(fs: Seq<(Seq<char>, Seq<char>, bool)>) -> Seq<char>
    decreases fs.len(),
{
    if fs.len() == 0 {
        Seq::empty()
    } else {
        flat_fields_text(fs.drop_last()) + "\n    "@ + snake(fs.last().0) + ": "@ + fs.last().1 + ","@
    }
}

/// The non-blank lines of a method body, trimmed, each on an indented line.
pub open spec fn body_lines_text(ls: Seq<Seq<char>>) -> Seq<char>
    decreases ls.len(),
{
    if ls.len() == 0 {
        Seq::empty()
    } else {
        body_lines_text(ls.drop_last()) + if trim(ls.last()).len() == 0 {
            Seq::<char>::empty()
        } else {
            "\n        "@ + trim(ls.last())
        }
    }
}

/// One method of a flattened nested class.
pub open spec fn flat_method_text(m: (Seq<char>, Seq<char>, Seq<char>, Option<Seq<char>>, bool)) -> Seq<char> {
    let (name, ret, params, body, is_pub) = m;
    let pws = if params.len() == 0 { "&self"@ } else { "&self, "@ + params };
    "\n    "@ + (if is_pub { "pub "@ } else { Seq::empty() }) + "fn "@ + name + "("@ + pws + (if ret == "void"@ || ret.len() == 0 {
        ") {"@
    } else {
        ") -> "@ + ret + " {"@
    }) + (match body {
        Some(b) => body_lines_text(lines(b)),
        None => Seq::empty(),
    }) + "\n    }"@
}

/// The methods of a flattened nested class.
pub open spec fn flat_methods_text(ms: Seq<(Seq<char>, Seq<char>, Seq<char>, Option<Seq<char>>, bool)>) -> Seq<char>
    decreases ms.len(),
{
    if ms.len() == 0 {
        Seq::empty()
    } else {
        flat_methods_text(ms.drop_last()) + flat_method_text(ms.last())
    }
}

/// The body of a class definition: between its first `{` and its last `}`
/// (or its end).
pub open spec fn def_body(d: Seq<char>) -> Seq<char> {
    d.subrange(def_start(d), def_end(d))
}

/// Where the body of class definition `d` starts: after its first `{`, or
/// after its first character when it has none.
pub open spec fn def_start(d: Seq<char>) -> int {
    if has_char(d, '{') {
        idx_of(d, '{') + 1
    } else {
        1
    }
}

/// Where the body of class definition `d` ends: at its last `}`, or at its
/// end when it has none.
pub open spec fn def_end(d: Seq<char>) -> int {
    if last_idx_of(d, '}') >= 0 {
        last_idx_of(d, '}')
    } else {
        d.len() as int
    }
}

/// A nested class flattened to struct `flat` with its impl.
pub open spec fn flat_class_text(flat: Seq<char>, d: Seq<char>) -> Seq<char> {
    let cb = class_body(def_body(d));
    "#[derive(Default)]\nstruct "@ + flat + " {"@ + flat_fields_text(cb.0) + "\n}\n"@ + "impl "@ + flat + " {"@
        + flat_methods_text(cb.1) + "\n}\n"@
}

/// Position of the first entry with key `k`, among entries given by content.
pub open spec fn first_key<V>(e: Seq<(Seq<char>, V)>, k: Seq<char>) -> Option<int>
    decreases e.len(),
{
    if e.len() == 0 {
        None
    } else if e[0].0 == k {
        Some(0)
    } else {
        match first_key(e.drop_first(), k) {
            Some(i) => Some(i + 1),
            None => None,
        }
    }
}

/// Entries given by content after `k` is stored with `v`, as
/// `HashMap::insert` would: in place, or appended.
pub open spec fn put_view<V>(e: Seq<(Seq<char>, V)>, k: Seq<char>, v: V) -> Seq<(Seq<char>, V)> {
    match first_key(e, k) {
        Some(i) => e.update(i, (k, v)),
        None => e.push((k, v)),
    }
}

proof fn lemma_first_key(e: Seq<(String, String)>, k: Seq<char>)
    ensures
        first_key(path_map_view(e), k) == index_in(e, k),
    decreases e.len(),
{
    if e.len() > 0 {
        assert(path_map_view(e).drop_first() =~= path_map_view(e.drop_first()));
        lemma_first_key(e.drop_first(), k);
    }
}

/// Storing in a table of strings, seen by content.
proof fn lemma_put_view(e: Seq<(String, String)>, k: String, v: String)
    ensures
        path_map_view(crate::table::put(e, k, v)) == put_view(path_map_view(e), k@, v@),
{
    lemma_first_key(e, k@);
    match index_in(e, k@) {
        Some(i) => {
            crate::table::lemma_index_in(e, k@);
            assert(path_map_view(e.update(i, (k, v))) =~= path_map_view(e).update(i, (k@, v@)));
        },
        None => {
            assert(path_map_view(e.push((k, v))) =~= path_map_view(e).push((k@, v@)));
        },
    }
}

/// Where a brace block closes, scanning from `pos` while the depth is
/// positive: the position after the scan and the depth left.
pub open spec fn depth_end(s: Seq<char>, pos: int, depth: int) -> (int, int)
    decreases s.len() - pos,
{
    if pos < 0 || pos >= s.len() || depth <= 0 {
        (pos, depth)
    } else {
        let d2 = if s[pos] == '{' {
            depth + 1
        } else if s[pos] == '}' {
            depth - 1
        } else {
            depth
        };
        depth_end(s, pos + 1, d2)
    }
}

/// The pattern of a class header `class Name {`.
pub open spec fn class_head_pat() -> Seq<char> {
    r"(?m)^\s*class\s+([A-Z][a-zA-Z0-9_]*)\s*\{"@
}

/// The nested-class table (inner name -> outer name, `Outer.Inner` -> its
/// definition) after the first `k` nested headers `m` (pieces `g`) in the
/// body of class `outer`.
pub open spec fn nested_inner(
    tbl: (Seq<(Seq<char>, Seq<char>)>, Seq<(Seq<char>, Seq<char>)>),
    outer: Seq<char>,
    body: Seq<char>,
    g: Seq<Seq<char>>,
    m: Seq<Seq<Option<Seq<char>>>>,
    k: int,
) -> (Seq<(Seq<char>, Seq<char>)>, Seq<(Seq<char>, Seq<char>)>)
    decreases k,
{
    if k <= 0 {
        tbl
    } else {
        let prev = nested_inner(tbl, outer, body, g, m, k - 1);
        let c = m[k - 1];
        let inner = grp(c, 1);
        let en = match_end(g, whole(m), k - 1);
        let st = en - grp(c, 0).len();
        let (np, nd) = depth_end(body, en, 1);
        (
            put_view(prev.0, inner, outer),
            if nd == 0 {
                put_view(prev.1, outer + "."@ + inner, body.subrange(st, np))
            } else {
                prev.1
            },
        )
    }
}

/// The nested-class table after the first `k` class headers `m` (pieces
/// `g`) of `source`: each class body's own nested classes.
pub open spec fn nested_outer(source: Seq<char>, g: Seq<Seq<char>>, m: Seq<Seq<Option<Seq<char>>>>, k: int) -> (Seq<(Seq<char>, Seq<char>)>, Seq<(Seq<char>, Seq<char>)>)
    decreases k,
{
    if k <= 0 {
        (Seq::empty(), Seq::empty())
    } else {
        let prev = nested_outer(source, g, m, k - 1);
        let name = grp(m[k - 1], 1);
        let bs = match_end(g, whole(m), k - 1);
        let (pos, d) = depth_end(source, bs, 1);
        if d == 0 {
            let body = source.subrange(bs, pos - 1);
            match regex_scan(class_head_pat(), body) {
                Some((g2, m2)) => nested_inner(prev, name, body, g2, m2, m2.len() as int),
                None => prev,
            }
        } else {
            prev
        }
    }
}

/// The nested classes of `source`: inner name -> outer name, and
/// `Outer.Inner` -> the inner class's definition.
pub open spec fn nested_table(source: Seq<char>) -> (Seq<(Seq<char>, Seq<char>)>, Seq<(Seq<char>, Seq<char>)>) {
    match regex_scan(class_head_pat(), source) {
        Some((g, m)) => nested_outer(source, g, m, m.len() as int),
        None => (Seq::empty(), Seq::empty()),
    }
}

/// The content of a class's inheritance record: parent and interfaces.
pub open spec fn info_view(i: ClassInfo) -> (Option<Seq<char>>, Seq<Seq<char>>) {
    (match i.parent {
        Some(p) => Some(p@),
        None => None,
    }, strings(i.interfaces@))
}

/// The content of an inheritance table.
pub open spec fn table_view(e: Seq<(String, ClassInfo)>) -> Seq<(Seq<char>, (Option<Seq<char>>, Seq<Seq<char>>))> {
    e.map_values(|p: (String, ClassInfo)| (p.0@, info_view(p.1)))
}

proof fn lemma_first_key_info(e: Seq<(String, ClassInfo)>, k: Seq<char>)
    ensures
        first_key(table_view(e), k) == index_in(e, k),
    decreases e.len(),
{
    if e.len() > 0 {
        assert(table_view(e).drop_first() =~= table_view(e.drop_first()));
        lemma_first_key_info(e.drop_first(), k);
    }
}

proof fn lemma_put_info(e: Seq<(String, ClassInfo)>, k: String, v: ClassInfo)
    ensures
        table_view(crate::table::put(e, k, v)) == put_view(table_view(e), k@, info_view(v)),
{
    lemma_first_key_info(e, k@);
    match index_in(e, k@) {
        Some(i) => {
            crate::table::lemma_index_in(e, k@);
            assert(table_view(e.update(i, (k, v))) =~= table_view(e).update(i, (k@, info_view(v))));
        },
        None => {
            assert(table_view(e.push((k, v))) =~= table_view(e).push((k@, info_view(v))));
        },
    }
}

/// The pattern of a class header with its parent and interfaces.
pub open spec fn class_header_pat() -> Seq<char> {
    r"(?m)^\s*class\s+([a-zA-Z_][a-zA-Z0-9_]*)\s*(?:extends\s+(\w+))?\s*(?:implements\s+([\w,\s]+))?\s*\{"@
}

/// The inheritance table after the first `k` class headers `m`, skipping
/// classes named in `nested`: each class with its parent and interfaces.
pub open spec fn class_rows(m: Seq<Seq<Option<Seq<char>>>>, nested: Seq<Seq<char>>, k: int) -> Seq<(Seq<char>, (Option<Seq<char>>, Seq<Seq<char>>))>
    decreases k,
{
    if k <= 0 {
        Seq::empty()
    } else {
        let prev = class_rows(m, nested, k - 1);
        let c = m[k - 1];
        let name = grp(c, 1);
        if nested.contains(name) {
            prev
        } else {
            put_view(prev, name, (opt_grp(c, 2), if has_grp(c, 3) {
                nonempty_trimmed(split_on(grp(c, 3), ','))
            } else {
                Seq::empty()
            }))
        }
    }
}

/// The inheritance table of `source`: every class that is not nested, with
/// its parent and interfaces.
pub open spec fn class_table_of(source: Seq<char>) -> Seq<(Seq<char>, (Option<Seq<char>>, Seq<Seq<char>>))> {
    let nested = path_keys(nested_table(source).0);
    match regex_scan(class_header_pat(), source) {
        Some((g, m)) => class_rows(m, nested, m.len() as int),
        None => Seq::empty(),
    }
}

/// The parent recorded for class `c` in a table given by content.
pub open spec fn parent_in_view(tv: Seq<(Seq<char>, (Option<Seq<char>>, Seq<Seq<char>>))>, c: Seq<char>) -> Option<Seq<char>> {
    match first_key(tv, c) {
        Some(i) => tv[i].1.0,
        None => None,
    }
}

/// [`chain`] on a table given by content.
pub open spec fn chain_view(tv: Seq<(Seq<char>, (Option<Seq<char>>, Seq<Seq<char>>))>, cur: Option<Seq<char>>, seen: Seq<Seq<char>>, fuel: nat) -> Seq<Seq<char>>
    decreases fuel,
{
    match cur {
        Some(p) => if fuel == 0 || seen.contains(p) {
            seen
        } else {
            chain_view(tv, parent_in_view(tv, p), seen.push(p), (fuel - 1) as nat)
        },
        None => seen,
    }
}

proof fn lemma_parent_view(t: Seq<(String, ClassInfo)>, c: Seq<char>)
    ensures
        parent_of(t, c) == parent_in_view(table_view(t), c),
{
    lemma_first_key_info(t, c);
    crate::table::lemma_index_in(t, c);
}

proof fn lemma_chain_view(t: Seq<(String, ClassInfo)>, cur: Option<Seq<char>>, seen: Seq<Seq<char>>, fuel: nat)
    ensures
        chain(t, cur, seen, fuel) == chain_view(table_view(t), cur, seen, fuel),
    decreases fuel,
{
    match cur {
        Some(p) => if fuel > 0 && !seen.contains(p) {
            lemma_parent_view(t, p);
            lemma_chain_view(t, parent_of(t, p), seen.push(p), (fuel - 1) as nat);
        },
        None => {},
    }
}

/// How many classes the inheritance chain of `c` holds, `c` included
/// (stopping at a repeat or an unknown class).
pub open spec fn chain_depth(tv: Seq<(Seq<char>, (Option<Seq<char>>, Seq<Seq<char>>))>, c: Seq<char>) -> nat {
    chain_view(tv, parent_in_view(tv, c), seq![c], (tv.len() + 1) as nat).len()
}

/// The deepest chain among the first `k` classes of `tv`.
pub open spec fn max_depth(tv: Seq<(Seq<char>, (Option<Seq<char>>, Seq<Seq<char>>))>, k: int) -> nat
    decreases k,
{
    if k <= 0 {
        0
    } else {
        let d = chain_depth(tv, tv[k - 1].0);
        let m = max_depth(tv, k - 1);
        if d > m { d } else { m }
    }
}

/// The replacement of one match (groups `c`).
pub open spec fn rep_remove_use(c: Seq<Option<Seq<char>>>) -> Seq<char> {
    Seq::<char>::empty()
}

/// The replacement of one match (groups `c`).
pub open spec fn rep_pass(c: Seq<Option<Seq<char>>>) -> Seq<char> {
    "();"@
}

/// The replacement of one match (groups `c`).
pub open spec fn rep_empty_push(c: Seq<Option<Seq<char>>>) -> Seq<char> {
    ".push(Vec::new())"@
}

/// The replacement of one match (groups `c`).
pub open spec fn rep_method_calls(c: Seq<Option<Seq<char>>>) -> Seq<char> {
    snake_call_rep(c)
}

/// The replacement of one match (groups `c`).
pub open spec fn rep_float_literals(c: Seq<Option<Seq<char>>>) -> Seq<char> {
    ": "@ + grp(c, 1) + " = "@ + grp(c, 2) + ".0;"@
}

/// The replacement of one match (groups `c`).
pub open spec fn rep_array_slices(c: Seq<Option<Seq<char>>>) -> Seq<char> {
    "let "@ + grp(c, 2) + ": &["@ + grp(c, 1) + "] = &"@ + grp(c, 3) + "["@ + grp(c, 4) + ".."@ + grp(c, 5) + "];"@
}

/// The replacement of one match (groups `c`).
pub open spec fn rep_condition_parens(c: Seq<Option<Seq<char>>>) -> Seq<char> {
    grp(c, 1) + " "@ + grp(c, 2) + " {"@
}

/// The replacement of one match (groups `c`).
pub open spec fn rep_string_init(c: Seq<Option<Seq<char>>>) -> Seq<char> {
    if trim(grp(c, 2)).len() > 0 && trim(grp(c, 2))[0] == '"' {
                    "let mut "@ + grp(c, 1) + ": String = "@ + grp(c, 2) + ".to_string();"@
                } else {
                    "let mut "@ + grp(c, 1) + ": String = "@ + grp(c, 2) + ";"@
                }
}

/// The replacement of one match (groups `c`).
pub open spec fn rep_array_literal_assign(c: Seq<Option<Seq<char>>>) -> Seq<char> {
    grp(c, 1) + " = ["@ + trim(grp(c, 2)) + "];"@
}

/// The replacement of one match (groups `c`).
pub open spec fn rep_increment(c: Seq<Option<Seq<char>>>) -> Seq<char> {
    if grp(c, 2) == "++"@ { grp(c, 1) + " += 1;"@ } else { grp(c, 1) + " -= 1;"@ }
}

/// The result of a rule that replaces every match of `pat` in `src` by
/// `rep` of its groups; the pattern's error when it is refused.
pub open spec fn regex_rule(pat: Seq<char>, src: Seq<char>, rep: spec_fn(Seq<Option<Seq<char>>>) -> Seq<char>) -> Result<Seq<char>, TranspileErrorView> {
    match regex_scan(pat, src) {
        Some((g, m)) => Ok(splice(g, m.map_values(rep))),
        None => Err(TranspileErrorView::TransformError(regex_error(pat))),
    }
}

/// The content of a translation result.
pub open spec fn result_view(r: Result<String, TranspileError>) -> Result<Seq<char>, TranspileErrorView> {
    match r {
        Ok(s) => Ok(s@),
        Err(e) => Err(e@),
    }
}

/// `use module;` lines removed.
pub open spec fn rule_remove_use(src: Seq<char>) -> Result<Seq<char>, TranspileErrorView> {
    regex_rule(r"(?m)^\s*use\s+[a-zA-Z_][a-zA-Z0-9_]*\s*;"@, src, |c: Seq<Option<Seq<char>>>| rep_remove_use(c))
}

/// `pass;` as `();`.
pub open spec fn rule_pass(src: Seq<char>) -> Result<Seq<char>, TranspileErrorView> {
    regex_rule(r"\bpass\s*;"@, src, |c: Seq<Option<Seq<char>>>| rep_pass(c))
}

/// `x.push([])` as `x.push(Vec::new())`.
pub open spec fn rule_empty_push(src: Seq<char>) -> Result<Seq<char>, TranspileErrorView> {
    regex_rule(r"\.push\(\[\]\)"@, src, |c: Seq<Option<Seq<char>>>| rep_empty_push(c))
}

/// Method calls renamed to snake_case.
pub open spec fn rule_method_calls(src: Seq<char>) -> Result<Seq<char>, TranspileErrorView> {
    regex_rule(r"\.([a-z][a-zA-Z0-9]*)\s*\("@, src, |c: Seq<Option<Seq<char>>>| rep_method_calls(c))
}

/// `: f32 = 3;` as `: f32 = 3.0;`.
pub open spec fn rule_float_literals(src: Seq<char>) -> Result<Seq<char>, TranspileErrorView> {
    regex_rule(r":\s*(f32|f64)\s*=\s*(\d+)\s*;"@, src, |c: Seq<Option<Seq<char>>>| rep_float_literals(c))
}

/// `i32[] s = a[0..3];` as `let s: &[i32] = &a[0..3];`.
pub open spec fn rule_array_slices(src: Seq<char>) -> Result<Seq<char>, TranspileErrorView> {
    regex_rule(
        r"\b(i8|i16|i32|i64|u8|u16|u32|u64|f32|f64|bool)\[\]\s+([a-zA-Z_][a-zA-Z0-9_]*)\s*=\s*([a-zA-Z_][a-zA-Z0-9_]*)\[(\d+)\.\.(\d+)\];"@,
        src,
        |c: Seq<Option<Seq<char>>>| rep_array_slices(c))
}

/// `if (x) {` as `if x {`, and likewise for `while`.
pub open spec fn rule_condition_parens(src: Seq<char>) -> Result<Seq<char>, TranspileErrorView> {
    regex_rule(r"\b(if|while)\s*\(\s*([^)]+)\s*\)\s*\{"@, src, |c: Seq<Option<Seq<char>>>| rep_condition_parens(c))
}

/// A `String` binding initialized by a literal takes `.to_string()`.
pub open spec fn rule_string_init(src: Seq<char>) -> Result<Seq<char>, TranspileErrorView> {
    regex_rule(r"let mut ([a-zA-Z_][a-zA-Z0-9_]*): String = ([^;]+);"@, src, |c: Seq<Option<Seq<char>>>| rep_string_init(c))
}

/// `x.f = {a, b};` as `x.f = [a, b];`.
pub open spec fn rule_array_literal_assign(src: Seq<char>) -> Result<Seq<char>, TranspileErrorView> {
    regex_rule(r"((?:\b[a-zA-Z_]\w*)+(?:\[[^\[\]]+\]|\.\w+\([^()]*\))*)\s*=\s*\{([^{}]+)\}\s*;"@, src, |c: Seq<Option<Seq<char>>>| rep_array_literal_assign(c))
}

/// `i++;` as `i += 1;`, `i--;` as `i -= 1;`.
pub open spec fn rule_increment(src: Seq<char>) -> Result<Seq<char>, TranspileErrorView> {
    regex_rule(r"\b([a-zA-Z_][a-zA-Z0-9_]*)\s*(\+\+|--)\s*;"@, src, |c: Seq<Option<Seq<char>>>| rep_increment(c))
}

/// The content of a check's result.
pub open spec fn check_view(r: Result<(), TranspileError>) -> Result<(), TranspileErrorView> {
    match r {
        Ok(()) => Ok(()),
        Err(e) => Err(e@),
    }
}

/// The message for a `const` array.
pub open spec fn const_array_msg() -> Seq<char> {
    "syntax error: arrays are mutable by default and do not support `const` (r6/r18). Remove `const` from the array declaration, e.g. `i32[2] a = {1, 2};`. For read-only access to the data, use a slice: `i32[] s = arr[0..2];`"@
}

/// The message for a `const` without initializer.
pub open spec fn const_no_init_msg() -> Seq<char> {
    "syntax error: `const` declarations require an initializer (a constant must have a value). For delayed initialization use plain variables: `i32 a;` or `i32 a, b, c;`"@
}

/// A check that fails with `msg` when `pat` matches `src`.
pub open spec fn reject_rule(pat: Seq<char>, src: Seq<char>, msg: Seq<char>) -> Result<(), TranspileErrorView> {
    match regex_scan(pat, src) {
        Some((g, m)) => if m.len() > 0 {
            Err(TranspileErrorView::TransformError(msg))
        } else {
            Ok(())
        },
        None => Err(TranspileErrorView::TransformError(regex_error(pat))),
    }
}

/// The names of `const` integer declarations with a literal value, each
/// once, in order.
pub open spec fn const_dim_names(src: Seq<char>) -> Seq<Seq<char>> {
    match regex_scan(r"\bconst\s+(?:i8|i16|i32|i64|u8|u16|u32|u64)\s+([a-zA-Z_][a-zA-Z0-9_]*)\s*=\s*(\d+)\s*;"@, src) {
        Some((g, m)) => distinct_firsts(m, m.len() as int),
        None => Seq::empty(),
    }
}

/// Group 1 of the first `k` matches, each once.
pub open spec fn distinct_firsts(m: Seq<Seq<Option<Seq<char>>>>, k: int) -> Seq<Seq<char>>
    decreases k,
{
    if k <= 0 {
        Seq::empty()
    } else {
        let prev = distinct_firsts(m, k - 1);
        let n = grp(m[k - 1], 1);
        if prev.contains(n) { prev } else { prev.push(n) }
    }
}

/// The message for a dimension that is neither a literal nor a constant.
pub open spec fn bad_dim_msg(d: Seq<char>) -> Seq<char> {
    "syntax error: array dimension `"@ + d + "` must be an integer literal or a const (declare with `const i32 "@ + d
        + " = <n>;` \u{2014} runtime sizes belong to dynamic arrays `i32[][]`)"@
}

/// The first dimension among matches `ds` that is neither a number nor
/// one of `names`.
pub open spec fn bad_dim_in(ds: Seq<Seq<Option<Seq<char>>>>, names: Seq<Seq<char>>, k: int) -> Option<Seq<char>>
    decreases ds.len() - k,
{
    if k < 0 || k >= ds.len() {
        None
    } else {
        let d = grp(ds[k], 1);
        if !parses_usize(d) && !names.contains(d) {
            Some(d)
        } else {
            bad_dim_in(ds, names, k + 1)
        }
    }
}

/// The pattern of a name dimension `[N]`.
pub open spec fn name_dim_pat() -> Seq<char> {
    r"\[([a-zA-Z_][a-zA-Z0-9_]*)\]"@
}

/// The first bad dimension among the declarations `m` from `k` on.
pub open spec fn bad_dim(m: Seq<Seq<Option<Seq<char>>>>, names: Seq<Seq<char>>, k: int) -> Option<Seq<char>>
    decreases m.len() - k,
{
    if k < 0 || k >= m.len() {
        None
    } else {
        match regex_scan(name_dim_pat(), grp(m[k], 1)) {
            Some((g2, m2)) => match bad_dim_in(m2, names, 0) {
                Some(d) => Some(d),
                None => bad_dim(m, names, k + 1),
            },
            None => bad_dim(m, names, k + 1),
        }
    }
}

/// Array dimensions are literals or constants among `names`.
pub open spec fn check_dims(src: Seq<char>, names: Seq<Seq<char>>) -> Result<(), TranspileErrorView> {
    let p1 = r"\b(?:i8|i16|i32|i64|u8|u16|u32|u64|f32|f64|bool)((?:\[(?:\d+|[a-zA-Z_][a-zA-Z0-9_]*)\])+)\s+[a-zA-Z_][a-zA-Z0-9_]*\s*[;=]"@;
    match regex_scan(p1, src) {
        None => Err(TranspileErrorView::TransformError(regex_error(p1))),
        Some((g, m)) => if !regex_valid(name_dim_pat()) {
            Err(TranspileErrorView::TransformError(regex_error(name_dim_pat())))
        } else {
            match bad_dim(m, names, 0) {
                Some(d) => Err(TranspileErrorView::TransformError(bad_dim_msg(d))),
                None => Ok(()),
            }
        },
    }
}

/// `T` wrapped in `Vec<...>` `n` times.
pub open spec fn vec_nest(t: Seq<char>, n: nat) -> Seq<char>
    decreases n,
{
    if n == 0 { t } else { "Vec<"@ + vec_nest(t, (n - 1) as nat) + ">"@ }
}

/// How many `[]` pairs `s` holds, as the pattern finds them.
pub open spec fn bracket_pairs(s: Seq<char>) -> nat {
    match regex_scan(r"\[\]"@, s) {
        Some((g, m)) => m.len(),
        None => 0,
    }
}

/// `i32[][] v;` as `let mut v: Vec<Vec<i32>> = Vec::new();`.
pub open spec fn rule_dynamic_array(src: Seq<char>) -> Result<Seq<char>, TranspileErrorView> {
    let p1 = r"\b(i8|i16|i32|i64|u8|u16|u32|u64|f32|f64|bool)((?:\[\])+)\s+([a-zA-Z_][a-zA-Z0-9_]*)\s*;"@;
    match regex_scan(p1, src) {
        None => Err(TranspileErrorView::TransformError(regex_error(p1))),
        Some((g, m)) => if !regex_valid(r"\[\]"@) {
            Err(TranspileErrorView::TransformError(regex_error(r"\[\]"@)))
        } else {
            Ok(splice(g, m.map_values(|c: Seq<Option<Seq<char>>>| rep_dynamic_array(c))))
        },
    }
}

/// The replacement of one dynamic array declaration.
pub open spec fn rep_dynamic_array(c: Seq<Option<Seq<char>>>) -> Seq<char> {
    "let mut "@ + grp(c, 3) + ": "@ + vec_nest(grp(c, 1), bracket_pairs(grp(c, 2))) + " = Vec::new();"@
}

/// A function header `[public] Type name(params) {` in Rust.
pub open spec fn rep_function(c: Seq<Option<Seq<char>>>) -> Seq<char> {
    let vis = if has_grp(c, 1) { "pub "@ } else { Seq::empty() };
    if grp(c, 2) == "void"@ {
        vis + "fn "@ + grp(c, 3) + "("@ + params_text(grp(c, 4)) + ") {"@
    } else {
        vis + "fn "@ + grp(c, 3) + "("@ + params_text(grp(c, 4)) + ") -> "@ + grp(c, 2) + " {"@
    }
}

/// Function definitions in Rust.
pub open spec fn rule_functions(src: Seq<char>) -> Result<Seq<char>, TranspileErrorView> {
    regex_rule(
        r"(?m)^\s*((?:pub|public)\s+)?\b(void|i8|i16|i32|i64|u8|u16|u32|u64|f32|f64|bool|char|String)\s+([a-zA-Z_][a-zA-Z0-9_]*)\s*\(([^)]*)\)\s*\{"@,
        src,
        |c: Seq<Option<Seq<char>>>| rep_function(c),
    )
}

/// One trait method signature from an interface method declaration.
pub open spec fn iface_sig(c: Seq<Option<Seq<char>>>) -> Seq<char> {
    let rn = snake(grp(c, 3));
    let rp = method_params_text(grp(c, 4));
    if grp(c, 2) == "void"@ {
        "\n    fn "@ + rn + "(&self"@ + rp + ");"@
    } else {
        "\n    fn "@ + rn + "(&self"@ + rp + ") -> "@ + grp(c, 2) + ";"@
    }
}

/// The trait body for interface body `body`: one signature per method
/// declaration, each taking `&self`.
pub open spec fn iface_body(body: Seq<char>) -> Seq<char> {
    match regex_scan(r"(?m)^\s*(public\s+)?(\w+)\s+(\w+)\s*\(([^)]*)\)\s*;"@, body) {
        Some((g, m)) => if m.len() == 0 {
            Seq::empty()
        } else {
            "\n    "@ + join(m.map_values(|c: Seq<Option<Seq<char>>>| iface_sig(c)), "\n    "@) + "\n"@
        },
        None => Seq::empty(),
    }
}

/// The replacement of one interface definition.
pub open spec fn rep_interface(c: Seq<Option<Seq<char>>>) -> Seq<char> {
    "trait "@ + grp(c, 1) + " {"@ + iface_body(grp(c, 2)) + "}\n"@
}

/// Interfaces as Rust traits.
pub open spec fn rule_interfaces(src: Seq<char>) -> Result<Seq<char>, TranspileErrorView> {
    regex_rule(r"(?m)^\s*interface\s+([a-zA-Z_][a-zA-Z0-9_]*)\s*\{([^}]+)\}"@, src, |c: Seq<Option<Seq<char>>>| rep_interface(c))
}

/// The pattern of the trait generated for interface `name` (the name is
/// put in as written).
pub open spec fn trait_pat(name: Seq<char>) -> Seq<char> {
    r"(?s)trait\s+"@ + name + r"\s*\{([^}]*)\}"@
}

/// The pattern of a trait method's name.
pub open spec fn fn_name_pat() -> Seq<char> {
    r"fn\s+([a-zA-Z_][a-zA-Z0-9_]*)\s*\("@
}

/// `map` with group 1 of the first `k` matches `m2` mapped to `ifname`.
pub open spec fn put_names(map: Seq<(Seq<char>, Seq<char>)>, m2: Seq<Seq<Option<Seq<char>>>>, ifname: Seq<char>, k: int) -> Seq<(Seq<char>, Seq<char>)>
    decreases k,
{
    if k <= 0 {
        map
    } else {
        put_view(put_names(map, m2, ifname, k - 1), grp(m2[k - 1], 1), ifname)
    }
}

/// `map` with the members of interface `ifname`'s trait in `src` mapped to
/// it; the pattern's error when a pattern is refused.
pub open spec fn iface_members(src: Seq<char>, map: Seq<(Seq<char>, Seq<char>)>, ifname: Seq<char>) -> Result<Seq<(Seq<char>, Seq<char>)>, Seq<char>> {
    match regex_scan(trait_pat(ifname), src) {
        None => Err(regex_error(trait_pat(ifname))),
        Some((g, m)) => if m.len() == 0 {
            Ok(map)
        } else {
            match regex_scan(fn_name_pat(), grp(m[0], 1)) {
                None => Err(regex_error(fn_name_pat())),
                Some((g2, m2)) => Ok(put_names(map, m2, ifname, m2.len() as int)),
            }
        },
    }
}

/// Method name -> interface, for the first `k` interfaces `ifs`.
pub open spec fn iface_member_map(src: Seq<char>, ifs: Seq<Seq<char>>, k: int) -> Result<Seq<(Seq<char>, Seq<char>)>, Seq<char>>
    decreases k,
{
    if k <= 0 {
        Ok(Seq::empty())
    } else {
        match iface_member_map(src, ifs, k - 1) {
            Err(e) => Err(e),
            Ok(mp) => iface_members(src, mp, ifs[k - 1]),
        }
    }
}

/// Once a refused pattern stops the member map, it stays stopped.
proof fn lemma_member_map_err(src: Seq<char>, ifs: Seq<Seq<char>>, k: int, n: int)
    requires
        0 <= k <= n,
        iface_member_map(src, ifs, k) is Err,
    ensures
        iface_member_map(src, ifs, n) == iface_member_map(src, ifs, k),
    decreases n - k,
{
    if k < n {
        lemma_member_map_err(src, ifs, k, n - 1);
    }
}

/// The message for a private method implementing an interface.
pub open spec fn vis_msg(name: Seq<char>, ifname: Seq<char>, ret: Seq<char>) -> Seq<char> {
    "syntax error: interface method `"@ + name
        + "` must be declared `public` \u{2014} private methods cannot implement the public interface `"@ + ifname
        + "` (r26/r23). Fix: `public "@ + ret + " "@ + name + "(...);`"@
}

/// The message for the first private method among `ms` from `k` that
/// implements a member of `map`.
pub open spec fn private_impl(ms: Seq<Seq<Option<Seq<char>>>>, map: Seq<(Seq<char>, Seq<char>)>, k: int) -> Option<Seq<char>>
    decreases ms.len() - k,
{
    if k < 0 || k >= ms.len() {
        None
    } else {
        let c = ms[k];
        match first_key(map, snake(grp(c, 3))) {
            Some(i) => if !has_grp(c, 1) {
                Some(vis_msg(grp(c, 3), map[i].1, grp(c, 2)))
            } else {
                private_impl(ms, map, k + 1)
            },
            None => private_impl(ms, map, k + 1),
        }
    }
}

/// The pattern of a class method (a body without nested braces).
pub open spec fn class_method_pat() -> Seq<char> {
    r"(?s)(public\s+)?(\w+)\s+([a-zA-Z_][a-zA-Z0-9_]*)\s*\([^)]*\)\s*\{[^{}]*\}"@
}

/// The check of one class `cc` (name, interfaces, body).
pub open spec fn class_vis(src: Seq<char>, cc: Seq<Option<Seq<char>>>) -> Result<(), Seq<char>> {
    let ifs = split_on(grp(cc, 2), ',').map_values(|p: Seq<char>| trim(p));
    match iface_member_map(src, ifs, ifs.len() as int) {
        Err(e) => Err(e),
        Ok(mp) => match regex_scan(class_method_pat(), grp(cc, 3)) {
            Some((g, m)) => match private_impl(m, mp, 0) {
                Some(msg) => Err(msg),
                None => Ok(()),
            },
            None => Ok(()),
        },
    }
}

/// The first failing check among classes `ccs` from `k`.
pub open spec fn classes_vis(src: Seq<char>, ccs: Seq<Seq<Option<Seq<char>>>>, k: int) -> Result<(), Seq<char>>
    decreases ccs.len() - k,
{
    if k < 0 || k >= ccs.len() {
        Ok(())
    } else {
        match class_vis(src, ccs[k]) {
            Err(e) => Err(e),
            Ok(()) => classes_vis(src, ccs, k + 1),
        }
    }
}

/// The pattern of a class that implements interfaces.
pub open spec fn impl_class_pat() -> Seq<char> {
    r"(?m)^\s*class\s+([a-zA-Z_][a-zA-Z0-9_]*)\s*(?:extends\s+\w+)?\s*implements\s+([a-zA-Z_][a-zA-Z0-9_,\s]+)\s*\{([\s\S]*?)^\}"@
}

/// Methods implementing an interface are public.
pub open spec fn rule_impl_visibility(src: Seq<char>) -> Result<(), TranspileErrorView> {
    match regex_scan(impl_class_pat(), src) {
        None => Err(TranspileErrorView::TransformError(regex_error(impl_class_pat()))),
        Some((g, m)) => if !regex_valid(class_method_pat()) {
            Err(TranspileErrorView::TransformError(regex_error(class_method_pat())))
        } else {
            match classes_vis(src, m, 0) {
                Err(e) => Err(TranspileErrorView::TransformError(e)),
                Ok(()) => Ok(()),
            }
        },
    }
}

/// Operator characters that take a cast before them at depth 0.
pub open spec fn arith_op(c: char) -> bool {
    c == '+' || c == '-' || c == '*' || c == '/'
}

/// `s` read at parenthesis depth `depth`, the current operand so far being
/// `cur`: each operand at depth 0 is trimmed and followed by ` as TYPE `,
/// then its operator and a space.
pub open spec fn cast_scan(s: Seq<char>, depth: int, cur: Seq<char>, ty: Seq<char>) -> Seq<char>
    decreases s.len(),
{
    if s.len() == 0 {
        trim(cur)
    } else {
        let c = s[0];
        let rest = s.drop_first();
        if c == '(' {
            cast_scan(rest, depth + 1, cur.push(c), ty)
        } else if c == ')' {
            cast_scan(rest, depth - 1, cur.push(c), ty)
        } else if arith_op(c) && depth == 0 {
            trim(cur) + " as "@ + ty + " "@ + seq![c] + " "@ + cast_scan(rest, depth, Seq::empty(), ty)
        } else {
            cast_scan(rest, depth, cur.push(c), ty)
        }
    }
}

/// `expr` with the cast to `ty` put on each top-level operand, the operands
/// trimmed: `sum / 10` with `f32` is `sum as f32 / 10 as f32`.
pub open spec fn distributed_cast(expr: Seq<char>, ty: Seq<char>) -> Seq<char> {
    let r = trim(cast_scan(expr, 0, Seq::empty(), ty));
    if has_suffix(r, "as "@ + ty) {
        r
    } else {
        r + " as "@ + ty
    }
}

/// Every character is ASCII.
pub open spec fn ascii_text(s: Seq<char>) -> bool {
    forall|i: int| 0 <= i < s.len() ==> (#[trigger] s[i]) < '\u{80}'
}

/// Binary operators that end a cast operand at depth 0.
pub open spec fn binary_stop(c: char) -> bool {
    c == '+' || c == '*' || c == '/' || c == '%' || c == '<' || c == '>' || c == '='
        || c == '&' || c == '|' || c == '^'
}

/// Where the operand of a cast, scanned from `start`, ends: the scan is at
/// `pos` with parenthesis and bracket depths `dp` and `db`, inside a string
/// literal when `ins`, and the last complete operand unit ended at `oe`.
/// Strings are skipped whole (a backslash skips the next character); a
/// depth-0 `,` `;` unbalanced closer or binary operator ends the operand,
/// and so does `-` `!` `~` once an operand unit is complete.
pub open spec fn operand_scan(s: Seq<char>, start: int, pos: int, dp: int, db: int, ins: bool, oe: int) -> int
    decreases s.len() - pos + 2,
{
    if pos < 0 || pos >= s.len() {
        pos
    } else {
        let c = s[pos];
        let top = dp == 0 && db == 0;
        if ins {
            if c == '\\' {
                operand_scan(s, start, pos + 2, dp, db, ins, oe)
            } else {
                operand_scan(s, start, pos + 1, dp, db, c != '"', oe)
            }
        } else if c == '"' {
            operand_scan(s, start, pos + 1, dp, db, true, oe)
        } else if c == '(' {
            operand_scan(s, start, pos + 1, dp + 1, db, ins, oe)
        } else if c == ')' {
            if top {
                pos
            } else {
                operand_scan(s, start, pos + 1, dp - 1, db, ins, if dp - 1 == 0 && db == 0 { pos + 1 } else { oe })
            }
        } else if c == '[' {
            operand_scan(s, start, pos + 1, dp, db + 1, ins, oe)
        } else if c == ']' {
            if top {
                pos
            } else {
                operand_scan(s, start, pos + 1, dp, db - 1, ins, if dp == 0 && db - 1 == 0 { pos + 1 } else { oe })
            }
        } else if c == ',' || c == ';' || binary_stop(c) {
            if top {
                pos
            } else {
                operand_scan(s, start, pos + 1, dp, db, ins, oe)
            }
        } else if c == '-' || c == '!' || c == '~' {
            if top && oe > start {
                pos
            } else {
                operand_scan(s, start, pos + 1, dp, db, ins, oe)
            }
        } else {
            operand_scan(s, start, pos + 1, dp, db, ins, pos + 1)
        }
    }
}

/// Where the operand of a cast that starts at `start` ends.
pub open spec fn operand_end(s: Seq<char>, start: int) -> int {
    operand_scan(s, start, start, 0, 0, false, start)
}

/// The operand of a cast `(type)operand` that starts at `start`, trimmed at
/// its end, and where it ends; `None` when it is empty.
pub open spec fn cast_operand(s: Seq<char>, start: int) -> Option<(Seq<char>, int)> {
    let p = operand_end(s, start);
    if p == start {
        None
    } else {
        Some((trim_end(s.subrange(start, p)), p))
    }
}

/// The `}` that closes a block, scanning from `pos` at brace depth `depth`
/// (inside a string literal when `ins`; each `"` opens or closes one).
pub open spec fn brace_close(s: Seq<char>, pos: int, depth: int, ins: bool) -> Option<int>
    decreases s.len() - pos,
{
    if pos < 0 || pos >= s.len() {
        None
    } else {
        let c = s[pos];
        let ins2 = if c == '"' { !ins } else { ins };
        if !ins2 && c == '{' {
            brace_close(s, pos + 1, depth + 1, ins2)
        } else if !ins2 && c == '}' {
            if depth - 1 == 0 {
                Some(pos)
            } else {
                brace_close(s, pos + 1, depth - 1, ins2)
            }
        } else {
            brace_close(s, pos + 1, depth, ins2)
        }
    }
}

/// The first `;` outside string literals, scanning from `pos`.
pub open spec fn stmt_end(s: Seq<char>, pos: int, ins: bool) -> Option<int>
    decreases s.len() - pos,
{
    if pos < 0 || pos >= s.len() {
        None
    } else {
        let c = s[pos];
        if c == '"' {
            stmt_end(s, pos + 1, !ins)
        } else if !ins && c == ';' {
            Some(pos)
        } else {
            stmt_end(s, pos + 1, ins)
        }
    }
}

/// The body of a `for` whose header ends before `a`, and where it ends: a
/// braced block (its statements, trimmed) when the next non-blank character
/// is `{`, else the single statement up to its `;`.
pub open spec fn for_body(s: Seq<char>, a: int) -> Option<(Seq<char>, int)> {
    let after = s.subrange(a, s.len() as int);
    let t = trim_start(after);
    if t.len() > 0 && t[0] == '{' {
        let open = a + (after.len() - t.len());
        match brace_close(s, open + 1, 1, false) {
            Some(be) => Some((trim(s.subrange(open + 1, be)), be + 1)),
            None => None,
        }
    } else {
        match stmt_end(s, a, false) {
            Some(se) => Some((trim(s.subrange(a, se)).push(';'), se + 1)),
            None => None,
        }
    }
}

/// The `}` that brings brace depth `bd`, counted from `pos`, to zero.
pub open spec fn plain_close(s: Seq<char>, pos: int, bd: int) -> Option<int>
    decreases s.len() - pos,
{
    if pos < 0 || pos >= s.len() {
        None
    } else if s[pos] == '{' {
        plain_close(s, pos + 1, bd + 1)
    } else if s[pos] == '}' {
        if bd - 1 == 0 {
            Some(pos)
        } else {
            plain_close(s, pos + 1, bd - 1)
        }
    } else {
        plain_close(s, pos + 1, bd)
    }
}

/// The end, just after its closing brace, of the block that opens at the
/// first `{` at or after `p`.
pub open spec fn block_after(s: Seq<char>, p: int) -> Option<int> {
    match find(s.subrange(p, s.len() as int), "{"@) {
        Some(j) => match plain_close(s, p + j + 1, 1) {
            Some(q) => Some(q + 1),
            None => None,
        },
        None => None,
    }
}

/// Where the `for` loop found from `pos` ends: once `for (` is seen (its
/// own `(` opening the header), the `)` met at parenthesis depth 0 ends the
/// header and the block after it ends the loop.
pub open spec fn for_end_scan(s: Seq<char>, pos: int, pd: int, in_for: bool) -> Option<int>
    decreases s.len() - pos,
{
    if pos < 0 || pos >= s.len() {
        None
    } else {
        let c = s[pos];
        if c == '(' {
            for_end_scan(s, pos + 1, if in_for { pd + 1 } else { pd }, in_for)
        } else if c == ')' && in_for {
            if pd == 0 {
                block_after(s, pos + 1)
            } else {
                for_end_scan(s, pos + 1, pd - 1, in_for)
            }
        } else if c == 'f' && occurs_at(s, "for ("@, pos) {
            proof {
                reveal_strlit("for (");
            }
            for_end_scan(s, pos + 5, pd, true)
        } else {
            for_end_scan(s, pos + 1, pd, in_for)
        }
    }
}

/// The marker that protects a `for` body.
pub open spec fn for_marker() -> Seq<char> {
    "###FOR_MARKER###"@
}

/// The position of the `}` that closes a protected body, scanning `a` from
/// `i` at depth `depth`; string literals and escaped characters do not count.
pub open spec fn protected_close(a: Seq<char>, i: int, depth: int, ins: bool, esc: bool) -> Option<int>
    decreases a.len() - i,
{
    if i < 0 || i >= a.len() {
        None
    } else {
        let c = a[i];
        if esc {
            protected_close(a, i + 1, depth, ins, false)
        } else if c == '\\' {
            protected_close(a, i + 1, depth, ins, true)
        } else if c == '"' {
            protected_close(a, i + 1, depth, !ins, false)
        } else {
            let d2 = if !ins && c == '{' {
                depth + 1
            } else if !ins && c == '}' {
                depth - 1
            } else {
                depth
            };
            if d2 == 0 {
                Some(i)
            } else {
                protected_close(a, i + 1, d2, ins, false)
            }
        }
    }
}

/// The body after the first marker, up to its closing brace, and the text
/// after that brace; `s` and nothing when there is no marker or no brace.
pub open spec fn protected_body(s: Seq<char>) -> (Seq<char>, Seq<char>) {
    match find(s, for_marker()) {
        Some(p) => {
            let after = s.subrange(p + for_marker().len(), s.len() as int);
            match protected_close(after, 0, 1, false, false) {
                Some(i) => (after.subrange(0, i), after.subrange(i + 1, after.len() as int)),
                None => (s, Seq::empty()),
            }
        },
        None => (s, Seq::empty()),
    }
}

/// The protected body of `s` is ASCII, when there is one: the positions
/// of its scan count characters as bytes.
pub open spec fn protected_ascii(s: Seq<char>) -> bool {
    match find(s, for_marker()) {
        Some(p) => {
            let after = s.subrange(p + for_marker().len(), s.len() as int);
            match protected_close(after, 0, 1, false, false) {
                Some(i) => ascii_text(after.subrange(0, i)),
                None => true,
            }
        },
        None => true,
    }
}

/// Whether some string of `v` is `x`, as a sequence of texts.
pub fn has_text(v: &Vec<String>, x: &Vec<char>) -> (b: bool)
    ensures
        b == strings(v@).contains(x@),
{
    let xs = string_of(x);
    let b = contains_text(v, xs.as_str());
    proof {
        if b {
            let i = choose|i: int| 0 <= i < v@.len() && v@[i]@ == x@;
            assert(strings(v@)[i] == x@);
        } else {
            assert forall|i: int| 0 <= i < strings(v@).len() implies strings(v@)[i] != x@ by {
                assert(strings(v@)[i] == v@[i]@);
            }
        }
    }
    b
}

/// The fields declared in class body `body`.
fn body_field_names(body: &str) -> (r: Vec<String>)
    ensures
        strings(r@) == fields_of_body(body@),
{
    match regex_search(r"(?m)^\s*(?:public\s+|private\s+)?(\w+(?:\[\d+\])?)\s+([a-zA-Z_]\w*)\s*(?:=[^;]*)?;\s*$", body) {
        Ok((gaps, ms)) => {
            let bv = chars_of(body);
            let ends = match_ends(&gaps, &ms, body);
            let ghost g = strings(gaps@);
            let ghost m = matches_view(ms@);
            let mut r: Vec<String> = Vec::new();
            let mut i: usize = 0;
            assert(strings(r@) =~= Seq::<Seq<char>>::empty());
            while i < ms.len()
                invariant
                    0 <= i <= ms.len(),
                    bv@ == body@,
                    g == strings(gaps@),
                    m == matches_view(ms@),
                    ends@.len() == ms@.len(),
                    forall|k: int| 0 <= k < ms@.len() ==> #[trigger] ends@[k] == match_end(g, whole(m), k),
                    forall|k: int| 0 <= k < ms@.len() ==> ends@[k] <= body@.len(),
                    strings(r@) == body_fields(body@, g, m, i as int),
                decreases ms.len() - i,
            {
                let name = group(&ms[i], 2);
                assert(m[i as int] == groups_view(ms@[i as int]));
                let e = ends[i];
                let k = skip_ws(&bv, e);
                let paren = k < bv.len() && bv[k] == '(';
                proof {
                    let after = body@.subrange(match_end(g, whole(m), i as int), body@.len() as int);
                    assert(after == bv@.subrange(e as int, bv@.len() as int));
                    if k < bv.len() {
                        assert(trim_start(after)[0] == bv@[k as int]);
                    }
                }
                if !paren && !has_text(&r, &name) {
                    let ghost r0 = strings(r@);
                    r.push(string_of(&name));
                    assert(strings(r@) =~= r0.push(name@));
                }
                i = i + 1;
            }
            r
        },
        Err(_) => Vec::new(),
    }
}

/// The parent recorded for class `c`, as text.
fn parent_in(t: &StrMap<ClassInfo>, c: &str) -> (r: Option<String>)
    ensures
        r.deep_view() == parent_of(t.entries@, c@),
{
    match t.get(c) {
        Some(info) => match &info.parent {
            Some(p) => Some(p.clone()),
            None => None,
        },
        None => None,
    }
}

/// The ancestors of class `c`, nearest first.
fn ancestors_of(t: &StrMap<ClassInfo>, c: &str) -> (r: Vec<String>)
    ensures
        strings(r@) == ancestors(t.entries@, c@),
{
    let mut seen: Vec<String> = Vec::new();
    let mut cur = parent_in(t, c);
    let mut fuel: usize = t.entries.len();
    let mut more = true;
    assert(strings(seen@) =~= Seq::<Seq<char>>::empty());
    proof {
        assert(ancestors(t.entries@, c@) == chain(t.entries@, cur.deep_view(), strings(seen@), (fuel + 1) as nat));
    }
    while more
        invariant
            fuel <= t.entries.len(),
            more ==> ancestors(t.entries@, c@) == chain(t.entries@, cur.deep_view(), strings(seen@), (fuel + 1) as nat),
            !more ==> ancestors(t.entries@, c@) == strings(seen@),
        decreases fuel + (if more { 1int } else { 0int }),
    {
        let ghost cv = cur.deep_view();
        let c0 = cur;
        cur = None;
        match c0 {
            Some(p) => {
                let pv = chars_of(p.as_str());
                if has_text(&seen, &pv) {
                    more = false;
                } else {
                    let next = parent_in(t, p.as_str());
                    let ghost s0 = strings(seen@);
                    seen.push(p);
                    assert(strings(seen@) =~= s0.push(pv@));
                    if fuel == 0 {
                        proof {
                            let c2 = next.deep_view();
                            assert(chain(t.entries@, c2, strings(seen@), 0) == strings(seen@));
                        }
                        more = false;
                    } else {
                        fuel = fuel - 1;
                    }
                    cur = next;
                }
            },
            None => {
                more = false;
            },
        }
    }
    seen
}

/// Whether `m` maps `x`.
fn maps_key(m: &Vec<(String, String)>, x: &Vec<char>) -> (b: bool)
    ensures
        b == path_keys(path_map_view(m@)).contains(x@),
{
    let mut i: usize = 0;
    while i < m.len()
        invariant
            0 <= i <= m.len(),
            forall|j: int| 0 <= j < i ==> m@[j].0@ != x@,
        decreases m.len() - i,
    {
        if same_text(x, m[i].0.as_str()) {
            assert(path_keys(path_map_view(m@))[i as int] == x@);
            return true;
        }
        i = i + 1;
    }
    assert forall|j: int| 0 <= j < path_keys(path_map_view(m@)).len() implies path_keys(path_map_view(m@))[j] != x@ by {
        assert(path_keys(path_map_view(m@))[j] == m@[j].0@);
    }
    false
}

/// Whether body `b` writes a field.
fn body_writes_field(b: &str) -> (r: bool)
    ensures
        r == writes_field(b@),
{
    match regex_search(r"(?:self|this)\.\w+(?:\[\d+\])?\s*(?:[-+*/])?=", b) {
        Ok((_g, ms)) => ms.len() > 0,
        Err(_) => false,
    }
}

/// `v` as an array literal when it is brace-delimited.
fn arrayify_vec(v: &Vec<char>) -> (r: Vec<char>)
    ensures
        r@ == arrayify(v@),
{
    if v.len() > 0 && v[0] == '{' && v[v.len() - 1] == '}' {
        let mut out: Vec<char> = Vec::new();
        push_str(&mut out, "[");
        if v.len() >= 2 {
            append_vec(&mut out, &sub_vec(v, 1, v.len() - 1));
        } else {
            assert(v@.len() == 1);
            assert(v@.subrange(1, 0) =~= Seq::<char>::empty()) by {}
        }
        push_str(&mut out, "]");
        out
    } else {
        sub_vec_all(v)
    }
}

/// A copy of `v`.
fn sub_vec_all(v: &Vec<char>) -> (r: Vec<char>)
    ensures
        r@ == v@,
{
    assert(v@.subrange(0, v@.len() as int) =~= v@);
    sub_vec(v, 0, v.len())
}

/// The field initializers of constructor body text `content`.
fn ctor_assign_list(content: &str) -> (r: Vec<Vec<char>>)
    ensures
        vviews(r@) == ctor_assigns(content@),
{
    match regex_search(r"(?:self|this)\.(\w+)\s*=\s*([^;]+);", content) {
        Ok((_g, ms)) => {
            let ghost mv = matches_view(ms@);
            let mut r: Vec<Vec<char>> = Vec::new();
            let mut i: usize = 0;
            while i < ms.len()
                invariant
                    0 <= i <= ms.len(),
                    mv == matches_view(ms@),
                    r@.len() == i,
                    forall|k: int| 0 <= k < i ==> #[trigger] r@[k]@ == grp(mv[k], 1) + ": "@ + arrayify(trim(grp(mv[k], 2))),
                decreases ms.len() - i,
            {
                assert(mv[i as int] == groups_view(ms@[i as int]));
                let mut a = group(&ms[i], 1);
                push_str(&mut a, ": ");
                let v = trim_vec(&group(&ms[i], 2));
                append_vec(&mut a, &arrayify_vec(&v));
                r.push(a);
                i = i + 1;
            }
            assert(vviews(r@) =~= mv.map_values(|c: Seq<Option<Seq<char>>>| grp(c, 1) + ": "@ + arrayify(trim(grp(c, 2)))));
            r
        },
        Err(_) => Vec::new(),
    }
}

/// The trimmed arguments of the first `super(...)` in `b`.
fn super_call_args(b: &str) -> (r: Vec<char>)
    ensures
        r@ == super_args(b@),
{
    match regex_search(r"super\s*\(([^)]*)\)", b) {
        Ok((_g, ms)) => {
            if ms.len() > 0 {
                assert(matches_view(ms@)[0] == groups_view(ms@[0]));
                trim_vec(&group(&ms[0], 1))
            } else {
                Vec::new()
            }
        },
        Err(_) => Vec::new(),
    }
}

/// The name of one trimmed, non-empty parameter.
fn param_name_vec(p: &Vec<char>) -> (r: Vec<char>)
    ensures
        r@ == param_name(p@),
{
    let w = words_vec(p);
    if w.len() >= 2 {
        assert(vviews(w@)[0] == w@[0]@);
        if w[0].len() > 0 && w[0][w[0].len() - 1] == ':' {
            strip_trail_vec(&w[0], ':')
        } else {
            assert(vviews(w@).last() == w@[w.len() - 1]@);
            sub_vec_copy(&w[w.len() - 1])
        }
    } else if w.len() == 1 {
        assert(vviews(w@)[0] == w@[0]@);
        sub_vec_copy(&w[0])
    } else {
        Vec::new()
    }
}

/// A copy of strings `v`.
fn copy_strings(v: &Vec<String>) -> (r: Vec<String>)
    ensures
        strings(r@) == strings(v@),
{
    let mut r: Vec<String> = Vec::new();
    let mut i: usize = 0;
    while i < v.len()
        invariant
            0 <= i <= v.len(),
            r@.len() == i,
            strings(r@) == strings(v@).subrange(0, i as int),
        decreases v.len() - i,
    {
        let c = v[i].clone();
        assert(c@ == v@[i as int]@);
        r.push(c);
        assert(strings(r@) =~= strings(v@).subrange(0, i + 1));
        i = i + 1;
    }
    assert(strings(v@).subrange(0, v.len() as int) =~= strings(v@));
    r
}

/// Whether `w` is a keyword that is never a field's type.
fn is_not_type(w: &Vec<char>) -> (b: bool)
    ensures
        b == not_a_type(w@),
{
    same_text(w, "return") || same_text(w, "if") || same_text(w, "else") || same_text(w, "for")
        || same_text(w, "while") || same_text(w, "let") || same_text(w, "fn") || same_text(w, "match")
        || same_text(w, "true") || same_text(w, "false") || same_text(w, "println") || same_text(w, "print")
        || same_text(w, "self") || same_text(w, "break") || same_text(w, "continue") || same_text(w, "pub")
        || same_text(w, "public")
}

/// The text of body `b` outside `spans`.
fn outside_text(b: &str, bv: &Vec<char>, spans: &Vec<(usize, usize)>) -> (r: Vec<char>)
    requires
        bv@ == b@,
        forall|j: int| 0 <= j < spans@.len() ==> (#[trigger] spans@[j]).0 <= spans@[j].1 <= bv@.len(),
        forall|j: int| 0 < j < spans@.len() ==> spans@[j - 1].1 <= (#[trigger] spans@[j]).0,
    ensures
        r@ == outside_spans(b@, spans_view(spans@), 0),
{
    let ghost sp = spans_view(spans@);
    let mut gaps: Vec<char> = Vec::new();
    let mut last: usize = 0;
    let mut k: usize = 0;
    assert(gaps@ =~= Seq::<char>::empty());
    assert(sp.subrange(0, sp.len() as int) =~= sp);
    while k < spans.len()
        invariant
            0 <= k <= spans.len(),
            bv@ == b@,
            sp == spans_view(spans@),
            forall|j: int| 0 <= j < spans@.len() ==> (#[trigger] spans@[j]).0 <= spans@[j].1 <= bv@.len(),
            forall|j: int| 0 < j < spans@.len() ==> spans@[j - 1].1 <= (#[trigger] spans@[j]).0,
            last <= bv@.len(),
            k > 0 ==> last == spans@[k - 1].1,
            k == 0 ==> last == 0,
            gaps@ + outside_spans(b@, sp.subrange(k as int, sp.len() as int), last as int) == outside_spans(b@, sp, 0),
        decreases spans.len() - k,
    {
        let (a, e) = spans[k];
        let ghost suf = sp.subrange(k as int, sp.len() as int);
        assert(suf[0] == (a as int, e as int));
        assert(suf.drop_first() =~= sp.subrange(k + 1, sp.len() as int));
        if k > 0 {
            assert(spans@[k - 1].1 <= spans@[k as int].0);
        }
        let seg = sub_vec(bv, last, a);
        let ghost g0 = gaps@;
        append_vec(&mut gaps, &seg);
        assert(g0 + outside_spans(b@, suf, last as int) =~= gaps@ + outside_spans(b@, suf.drop_first(), e as int));
        last = e;
        k = k + 1;
    }
    let tail = sub_vec(bv, last, bv.len());
    append_vec(&mut gaps, &tail);
    assert(sp.subrange(spans.len() as int, sp.len() as int) =~= Seq::<(int, int)>::empty());
    gaps
}

/// The scan of [`depth_end`] on `s`.
fn scan_depth(s: &Vec<char>, pos: usize) -> (r: (usize, i128))
    requires
        pos <= s@.len(),
    ensures
        (r.0 as int, r.1 as int) == depth_end(s@, pos as int, 1),
        pos <= r.0 <= s@.len(),
        r.1 == 0 ==> r.0 > pos,
{
    let mut p = pos;
    let mut depth: i128 = 1;
    while p < s.len() && depth > 0
        invariant
            pos <= p <= s@.len(),
            depth <= p - pos + 1,
            depth == 1 ==> p >= pos,
            depth <= 0 ==> p > pos,
            depth_end(s@, pos as int, 1) == depth_end(s@, p as int, depth as int),
        decreases s@.len() - p,
    {
        if s[p] == '{' {
            depth = depth + 1;
        } else if s[p] == '}' {
            depth = depth - 1;
        }
        p = p + 1;
    }
    (p, depth)
}

/// Store `v` under `k` in `m`, seen by content.
fn put_text(m: &mut StrMap<String>, k: String, v: String)
    ensures
        path_map_view(final(m).entries@) == put_view(path_map_view(old(m).entries@), k@, v@),
{
    let ghost e = m.entries@;
    proof {
        lemma_put_view(e, k, v);
    }
    m.insert(k, v);
}

/// The text between the first and second occurrence of `p` in `v`, when
/// `p` occurs.
fn second_piece_vec(v: &Vec<char>, p: &str) -> (r: Vec<char>)
    requires
        contains(v@, p@),
    ensures
        r@ == second_piece(v@, p@),
{
    let i = find_text(v, p).unwrap();
    let n = chars_of(p).len();
    assert(i + n <= v.len());
    let rest = sub_vec(v, i + n, v.len());
    match find_text(&rest, p) {
        Some(j) => sub_vec(&rest, 0, j),
        None => rest,
    }
}

impl Translator {
    /// A translator with `options`.
    pub fn new(options: TranspileOptions) -> (t: Self)
        ensures
            t.options == options,
    {
        Translator { options }
    }

    /// A translator with the default options.
    pub fn default() -> (t: Self)
        ensures
            !t.options.preserve_comments,
            !t.options.debug,
            !t.options.enable_all_plugins,
            t.options.module_context is None,
    {
        Self::new(TranspileOptions::default())
    }

    /// camelCase to snake_case.
    pub fn to_snake_case(&self, name: &str) -> (r: String)
        ensures
            r@ == snake(name@),
    {
        let v = chars_of(name);
        let mut out: Vec<char> = Vec::new();
        let mut i: usize = 0;
        while i < v.len()
            invariant
                0 <= i <= v.len(),
                v@ == name@,
                out@ == snake(v@.subrange(0, i as int)),
            decreases v.len() - i,
        {
            let c = v[i];
            let ghost pre = v@.subrange(0, i + 1);
            assert(pre.drop_last() =~= v@.subrange(0, i as int));
            assert(pre.last() == c);
            if is_uppercase(c) && i > 0 {
                out.push('_');
                out.push(to_ascii_lower(c));
                assert(out@ =~= snake(pre));
            } else {
                out.push(to_ascii_lower(c));
            }
            i = i + 1;
        }
        assert(v@.subrange(0, v.len() as int) =~= v@);
        string_of(&out)
    }

    /// Whether `ty` is a primitive type.
    pub fn is_primitive_type(&self, ty: &str) -> (b: bool)
        ensures
            b == primitive(ty@),
    {
        str_eq(ty, "i8") || str_eq(ty, "i16") || str_eq(ty, "i32")
            || str_eq(ty, "i64") || str_eq(ty, "u8") || str_eq(ty, "u16")
            || str_eq(ty, "u32") || str_eq(ty, "u64") || str_eq(ty, "f32")
            || str_eq(ty, "f64") || str_eq(ty, "bool") || str_eq(ty, "char")
            || str_eq(ty, "String")
    }

    /// An array dimension in Rust.
    pub fn dim_expr(&self, dim: &str) -> (r: String)
        ensures
            r@ == dim_text(dim@),
    {
        let v = chars_of(dim);
        let mut i: usize = 0;
        while i < v.len()
            invariant
                0 <= i <= v.len(),
                v@ == dim@,
                forall|k: int| 0 <= k < i ==> '0' <= #[trigger] v@[k] && v@[k] <= '9',
            decreases v.len() - i,
        {
            if !('0' <= v[i] && v[i] <= '9') {
                let mut out = v;
                push_str(&mut out, " as usize");
                return string_of(&out);
            }
            i = i + 1;
        }
        String::from_str(dim)
    }

    /// C-style parameters `i32 a, i32 b` as Rust's `a: i32, b: i32`.
    pub fn transform_params(&self, params: &str) -> (r: String)
        ensures
            r@ == params_text(params@),
    {
        string_of(&params_vec(&chars_of(params)))
    }

    /// Method parameters following `self`.
    pub fn transform_method_params(&self, params: &str) -> (r: String)
        ensures
            r@ == method_params_text(params@),
    {
        let v = chars_of(params);
        if trim_vec(&v).len() == 0 {
            String::new()
        } else {
            let mut out: Vec<char> = Vec::new();
            push_str(&mut out, ", ");
            append_vec(&mut out, &params_vec(&v));
            string_of(&out)
        }
    }

    /// A loop condition `i < 4` read as its comparison and its limit.
    pub fn parse_condition(&self, condition: &str) -> (r: (String, String))
        ensures
            (r.0@, r.1@) == condition_parts(condition@),
    {
        let c = chars_of(condition);
        if find_text(&c, "<=").is_some() {
            (String::from_str("<="), string_of(&trim_vec(&second_piece_vec(&c, "<="))))
        } else if find_text(&c, "<").is_some() {
            (String::from_str("<"), string_of(&trim_vec(&second_piece_vec(&c, "<"))))
        } else if find_text(&c, ">=").is_some() {
            (String::from_str(">="), string_of(&trim_vec(&second_piece_vec(&c, ">="))))
        } else if find_text(&c, ">").is_some() {
            (String::from_str(">"), string_of(&trim_vec(&second_piece_vec(&c, ">"))))
        } else {
            (String::from_str("<"), String::from_str("0"))
        }
    }

    /// `expr` with the cast to `ty` put on each top-level operand, the
    /// operands trimmed: `sum / 10` with `f32` is `sum as f32 / 10 as f32`.
    /// Its input is read byte by byte as characters, so it takes ASCII text
    /// only.
    pub fn distribute_cast_to_operands(&self, expr: &str, ty: &str) -> (r: String)
        requires
            ascii_text(expr@),
        ensures
            r@ == distributed_cast(expr@, ty@),
    {
        let e = chars_of(expr);
        let tv = chars_of(ty);
        let mut out: Vec<char> = Vec::new();
        let mut cur: Vec<char> = Vec::new();
        let mut depth: i128 = 0;
        let mut i: usize = 0;
        assert(e@.subrange(0, e@.len() as int) =~= e@);
        assert(out@ + cast_scan(e@, 0, cur@, ty@) =~= cast_scan(e@, 0, cur@, ty@));
        while i < e.len()
            invariant
                0 <= i <= e.len(),
                e@ == expr@,
                tv@ == ty@,
                -(i as int) <= depth <= i,
                cast_scan(e@, 0, Seq::empty(), ty@) == out@ + cast_scan(e@.subrange(i as int, e@.len() as int), depth as int, cur@, ty@),
            decreases e.len() - i,
        {
            let c = e[i];
            let ghost rest = e@.subrange(i as int, e@.len() as int);
            assert(rest[0] == c);
            assert(rest.drop_first() =~= e@.subrange(i + 1, e@.len() as int));
            if c == '(' {
                cur.push(c);
                depth = depth + 1;
            } else if c == ')' {
                cur.push(c);
                depth = depth - 1;
            } else if (c == '+' || c == '-' || c == '*' || c == '/') && depth == 0 {
                let ghost o0 = out@;
                let ghost c0 = cur@;
                let t = trim_vec(&cur);
                append_vec(&mut out, &t);
                push_str(&mut out, " as ");
                append_vec(&mut out, &tv);
                push_str(&mut out, " ");
                out.push(c);
                push_str(&mut out, " ");
                cur = Vec::new();
                assert(out@ =~= o0 + (trim(c0) + " as "@ + ty@ + " "@ + seq![c] + " "@));
                assert(o0 + cast_scan(rest, depth as int, c0, ty@) =~= out@ + cast_scan(rest.drop_first(), depth as int, cur@, ty@));
            } else {
                cur.push(c);
            }
            i = i + 1;
        }
        assert(e@.subrange(i as int, e@.len() as int) =~= Seq::<char>::empty());
        let t = trim_vec(&cur);
        append_vec(&mut out, &t);
        assert(out@ =~= cast_scan(e@, 0, Seq::empty(), ty@));
        let mut r = trim_vec(&out);
        let mut suffix: Vec<char> = Vec::new();
        push_str(&mut suffix, "as ");
        append_vec(&mut suffix, &tv);
        if !ends_with_vec(&r, &suffix) {
            push_str(&mut r, " as ");
            append_vec(&mut r, &tv);
            assert(r@ =~= trim(cast_scan(e@, 0, Seq::empty(), ty@)) + " as "@ + ty@);
        }
        string_of(&r)
    }

    /// The operand of a cast `(type)operand` whose text starts at character
    /// `start` of `source`: the operand trimmed at its end and the position
    /// after it, or `None` when it is empty. A string literal that is still
    /// open at a final backslash would run past the text: such input is not
    /// taken.
    fn cast_operand_at(&self, source: &str, start: usize) -> (r: Option<(String, usize)>)
        requires
            operand_end(source@, start as int) == start || operand_end(source@, start as int) <= source@.len(),
        ensures
            r matches Some((_, p)) ==> p <= source@.len(),
            match r {
                Some((t, p)) => cast_operand(source@, start as int) == Some((t@, p as int)),
                None => cast_operand(source@, start as int) is None,
            },
    {
        let s = chars_of(source);
        if start >= s.len() {
            return None;
        }
        let (pos, past) = scan_operand(&s, start);
        if past {
            return None;
        }
        if pos == start {
            return None;
        }
        let e = trim_end_bound(&s, start, pos);
        Some((string_of_range(&s, start, e), pos))
    }

    /// The body of a `for` loop whose header ends before character
    /// `after_header_start`, and the position after it: the statements of a
    /// braced block, trimmed, or a single statement with its `;`.
    fn for_body_at(&self, source: &str, after_header_start: usize) -> (r: Option<(String, usize)>)
        requires
            after_header_start <= source@.len(),
        ensures
            match r {
                Some((b, e)) => for_body(source@, after_header_start as int) == Some((b@, e as int)) && e <= source@.len(),
                None => for_body(source@, after_header_start as int) is None,
            },
    {
        let s = chars_of(source);
        let a = after_header_start;
        let k = skip_ws(&s, a);
        if k < s.len() && s[k] == '{' {
            let ghost after = s@.subrange(a as int, s@.len() as int);
            assert(trim_start(after).len() == s.len() - k);
            assert(trim_start(after)[0] == s@[k as int]);
            let bs = k + 1;
            let mut depth: usize = 1;
            let mut ins = false;
            let mut pos = bs;
            while pos < s.len()
                invariant
                    s@ == source@,
                    bs <= pos <= s.len(),
                    bs == k + 1,
                    1 <= depth <= pos - k,
                    brace_close(s@, bs as int, 1, false) == brace_close(s@, pos as int, depth as int, ins),
                ensures
                    pos == s.len() ==> brace_close(s@, bs as int, 1, false) is None,
                    pos < s.len() ==> brace_close(s@, bs as int, 1, false) == Some(pos as int),
                decreases s.len() - pos,
            {
                let c = s[pos];
                if c == '"' {
                    ins = !ins;
                }
                if !ins && c == '{' {
                    depth = depth + 1;
                } else if !ins && c == '}' {
                    if depth == 1 {
                        break;
                    }
                    depth = depth - 1;
                }
                pos = pos + 1;
            }
            if pos == s.len() {
                return None;
            }
            let (x, y) = trim_bounds(&s, bs, pos);
            Some((string_of_range(&s, x, y), pos + 1))
        } else {
            proof {
                let after = s@.subrange(a as int, s@.len() as int);
                if k < s.len() {
                    assert(trim_start(after)[0] == s@[k as int]);
                }
            }
            let mut ins = false;
            let mut pos = a;
            while pos < s.len()
                invariant
                    s@ == source@,
                    a <= pos <= s.len(),
                    stmt_end(s@, a as int, false) == stmt_end(s@, pos as int, ins),
                ensures
                    pos == s.len() ==> stmt_end(s@, a as int, false) is None,
                    pos < s.len() ==> stmt_end(s@, a as int, false) == Some(pos as int),
                decreases s.len() - pos,
            {
                let c = s[pos];
                if c == '"' {
                    ins = !ins;
                } else if !ins && c == ';' {
                    break;
                }
                pos = pos + 1;
            }
            if pos == s.len() {
                return None;
            }
            let (x, y) = trim_bounds(&s, a, pos);
            let mut body = sub_vec(&s, x, y);
            body.push(';');
            Some((string_of(&body), pos + 1))
        }
    }

    /// Where the `for` loop found from character `start` of `source` ends,
    /// just after its closing brace.
    fn for_loop_end_at(&self, source: &str, start: usize) -> (r: Option<usize>)
        ensures
            r matches Some(e) ==> e <= source@.len(),
            match r {
                Some(e) => for_end_scan(source@, start as int, 0, false) == Some(e as int),
                None => for_end_scan(source@, start as int, 0, false) is None,
            },
    {
        let s = chars_of(source);
        let fv = chars_of("for (");
        let mut pd: i128 = 0;
        let mut in_for = false;
        let mut pos = start;
        while pos < s.len()
            invariant
                s@ == source@,
                fv@ == "for ("@,
                start <= pos,
                -(pos as int) <= pd <= pos,
                for_end_scan(s@, start as int, 0, false) == for_end_scan(s@, pos as int, pd as int, in_for),
            decreases s.len() - pos,
        {
            let c = s[pos];
            if c == '(' {
                if in_for {
                    pd = pd + 1;
                }
            } else if c == ')' && in_for {
                if pd == 0 {
                    let p = pos + 1;
                    let rest = sub_vec(&s, p, s.len());
                    return match find_text(&rest, "{") {
                        Some(j) => {
                            proof {
                                reveal_strlit("{");
                                assert(occurs_at(rest@, "{"@, j as int));
                                assert(j + 1 <= rest@.len());
                            }
                            let mut bd: i128 = 1;
                            let mut q = p + j + 1;
                            while q < s.len()
                                invariant
                                    s@ == source@,
                                    p + j + 1 <= q <= s.len(),
                                    1 <= bd <= q - (p + j),
                                    plain_close(s@, p + j + 1, 1) == plain_close(s@, q as int, bd as int),
                                ensures
                                    q == s.len() ==> plain_close(s@, p + j + 1, 1) is None,
                                    q < s.len() ==> plain_close(s@, p + j + 1, 1) == Some(q as int),
                                decreases s.len() - q,
                            {
                                if s[q] == '{' {
                                    bd = bd + 1;
                                } else if s[q] == '}' {
                                    if bd == 1 {
                                        break;
                                    }
                                    bd = bd - 1;
                                }
                                q = q + 1;
                            }
                            if q < s.len() {
                                Some(q + 1)
                            } else {
                                None
                            }
                        },
                        None => None,
                    };
                }
                pd = pd - 1;
            } else if c == 'f' && crate::text::matches_at(&s, pos, &fv) {
                proof {
                    reveal_strlit("for (");
                }
                in_for = true;
                pos = pos + 5;
                continue;
            }
            pos = pos + 1;
        }
        None
    }

    /// Where the `for` loop found from byte `start` of `source` ends: the
    /// byte just after its closing brace (positions count UTF-8 bytes).
    pub fn find_for_loop_end(&self, source: &str, start: usize) -> (r: Option<usize>)
        requires
            char_boundary(source@, start as int),
            byte_off(source@, source@.len() as int) <= usize::MAX,
        ensures
            forall|ci: int|
                0 <= ci <= source@.len() && #[trigger] byte_off(source@, ci) == start ==> match r {
                    Some(e) => for_end_scan(source@, ci, 0, false) matches Some(ce) && e == byte_off(source@, ce),
                    None => for_end_scan(source@, ci, 0, false) is None,
                },
    {
        let s = chars_of(source);
        let ci = char_at_byte(&s, start);
        let r = match self.for_loop_end_at(source, ci) {
            Some(ce) => Some(byte_at_char(&s, ce)),
            None => None,
        };
        proof {
            assert forall|cj: int| 0 <= cj <= source@.len() && #[trigger] byte_off(source@, cj) == start implies cj == ci by {
                lemma_byte_off_inj(source@, cj, ci as int);
            }
        }
        r
    }

    /// The body of a `for` loop whose header ends before byte
    /// `after_header_start` of `source`, and the byte after it (positions
    /// count UTF-8 bytes); see [`for_body`].
    pub fn extract_for_body(&self, source: &str, after_header_start: usize) -> (r: Option<(String, usize)>)
        requires
            char_boundary(source@, after_header_start as int),
            byte_off(source@, source@.len() as int) <= usize::MAX,
        ensures
            forall|ci: int|
                0 <= ci <= source@.len() && #[trigger] byte_off(source@, ci) == after_header_start ==> match r {
                    Some((b, e)) => for_body(source@, ci) matches Some((b2, ce)) && b@ == b2 && e == byte_off(source@, ce),
                    None => for_body(source@, ci) is None,
                },
    {
        let s = chars_of(source);
        let ci = char_at_byte(&s, after_header_start);
        let r = match self.for_body_at(source, ci) {
            Some((b, ce)) => Some((b, byte_at_char(&s, ce))),
            None => None,
        };
        proof {
            assert forall|cj: int| 0 <= cj <= source@.len() && #[trigger] byte_off(source@, cj) == after_header_start implies cj == ci by {
                lemma_byte_off_inj(source@, cj, ci as int);
            }
        }
        r
    }

    /// The operand of a cast `(type)operand` whose text starts at byte
    /// `start` of `source`: the operand trimmed at its end and the byte after
    /// it (positions count UTF-8 bytes); see [`cast_operand`]. A string
    /// literal still open at a final backslash would run past the text:
    /// such input is not taken.
    pub fn extract_cast_operand(&self, source: &str, start: usize) -> (r: Option<(String, usize)>)
        requires
            char_boundary(source@, start as int),
            byte_off(source@, source@.len() as int) <= usize::MAX,
            forall|ci: int|
                0 <= ci <= source@.len() && #[trigger] byte_off(source@, ci) == start ==> (operand_end(source@, ci) == ci
                    || operand_end(source@, ci) <= source@.len()),
        ensures
            forall|ci: int|
                0 <= ci <= source@.len() && #[trigger] byte_off(source@, ci) == start ==> match r {
                    Some((t, e)) => cast_operand(source@, ci) matches Some((t2, ce)) && t@ == t2 && e == byte_off(source@, ce),
                    None => cast_operand(source@, ci) is None,
                },
    {
        let s = chars_of(source);
        let ci = char_at_byte(&s, start);
        assert(byte_off(source@, ci as int) == start);
        let r = match self.cast_operand_at(source, ci) {
            Some((t, ce)) => Some((t, byte_at_char(&s, ce))),
            None => None,
        };
        proof {
            assert forall|cj: int| 0 <= cj <= source@.len() && #[trigger] byte_off(source@, cj) == start implies cj == ci by {
                lemma_byte_off_inj(source@, cj, ci as int);
            }
        }
        r
    }

    /// The body after the first `for` marker up to its closing brace, and
    /// the text after that brace; `source` and nothing when there is no
    /// marker or no closing brace. Its scan counts bytes as characters, so
    /// the body must be ASCII.
    pub fn extract_protected_body(source: &str) -> (r: (String, String))
        requires
            protected_ascii(source@),
        ensures
            (r.0@, r.1@) == protected_body(source@),
    {
        let s = chars_of(source);
        match find_text(&s, "###FOR_MARKER###") {
            Some(p) => {
                let n = chars_of("###FOR_MARKER###").len();
                assert(occurs_at(s@, for_marker(), p as int));
                assert(n == for_marker().len());
                let slen = s.len();
                assert(p + n <= slen);
                let a = sub_vec(&s, p + n, slen);
                let mut depth: i128 = 1;
                let mut ins = false;
                let mut esc = false;
                let mut i: usize = 0;
                while i < a.len()
                    invariant
                        i <= a.len(),
                        1 <= depth <= i + 1,
                        protected_close(a@, 0, 1, false, false) == protected_close(a@, i as int, depth as int, ins, esc),
                    ensures
                        i == a.len() ==> protected_close(a@, 0, 1, false, false) is None,
                        i < a.len() ==> protected_close(a@, 0, 1, false, false) == Some(i as int),
                    decreases a.len() - i,
                {
                    let c = a[i];
                    if esc {
                        esc = false;
                    } else if c == '\\' {
                        esc = true;
                    } else if c == '"' {
                        ins = !ins;
                    } else {
                        if !ins && c == '{' {
                            depth = depth + 1;
                        } else if !ins && c == '}' {
                            if depth == 1 {
                                break;
                            }
                            depth = depth - 1;
                        }
                    }
                    i = i + 1;
                }
                if i < a.len() {
                    (string_of_range(&a, 0, i), string_of_range(&a, i + 1, a.len()))
                } else {
                    (String::from_str(source), String::new())
                }
            },
            None => (String::from_str(source), String::new()),
        }
    }

    /// Whether class `class_name` of `class_table` implements interface
    /// `interface_name`.
    pub fn class_implements_interface(&self, class_name: &str, interface_name: &str, class_table: &StrMap<ClassInfo>) -> (b: bool)
        ensures
            b == implements(class_table.entries@, class_name@, interface_name@),
    {
        match class_table.get(class_name) {
            Some(info) => contains_text(&info.interfaces, interface_name),
            None => false,
        }
    }

    /// The Rust struct of class `class_name`.
    pub fn generate_struct(&self, class_name: &str, fields: &Vec<ClassField>, parent_class: Option<&str>, is_public: bool) -> (r: String)
        ensures
            r@ == struct_text(class_name@, fields@, match parent_class {
                Some(p) => Some(p@),
                None => None,
            }, is_public),
    {
        let mut out: Vec<char> = Vec::new();
        push_str(&mut out, "#[derive(Default)]\n");
        if is_public {
            push_str(&mut out, "pub ");
        }
        push_str(&mut out, "struct ");
        push_str(&mut out, class_name);
        push_str(&mut out, " {");
        match parent_class {
            Some(p) => {
                push_str(&mut out, "\n    ");
                push_str(&mut out, p);
                push_str(&mut out, ": ");
                push_str(&mut out, p);
                push_str(&mut out, ",");
            },
            None => {},
        }
        let ghost head = out@;
        let mut i: usize = 0;
        while i < fields.len()
            invariant
                0 <= i <= fields.len(),
                out@ == head + fields_text(fields@.subrange(0, i as int)),
            decreases fields.len() - i,
        {
            let ghost pre = fields@.subrange(0, i + 1);
            assert(pre.drop_last() =~= fields@.subrange(0, i as int));
            let f = &fields[i];
            push_str(&mut out, "\n    ");
            match f.visibility {
                Visibility::Public => push_str(&mut out, "pub "),
                Visibility::Private => {},
            }
            let sn = self.to_snake_case(f.name.as_str());
            push_str(&mut out, sn.as_str());
            push_str(&mut out, ": ");
            push_str(&mut out, f.ty.as_str());
            push_str(&mut out, ",");
            proof {
                assert(pre.last() == *f);
                assert(out@ =~= head + fields_text(pre));
            }
            i = i + 1;
        }
        assert(fields@.subrange(0, fields.len() as int) =~= fields@);
        push_str(&mut out, "\n}\n");
        string_of(&out)
    }

    /// Method calls in `s` renamed to snake_case; the message of the
    /// pattern's error when it is refused.
    fn snake_method_calls(&self, s: &str) -> (r: Result<String, String>)
        ensures
            match r {
                Ok(t) => snake_calls(s@) == Some(t@),
                Err(m) => snake_calls(s@) is None && m@ == regex_error(r"\.([a-z][a-zA-Z0-9]*)\s*\("@),
            },
    {
        match regex_search(r"\.([a-z][a-zA-Z0-9]*)\s*\(", s) {
            Ok((gaps, ms)) => {
                let ghost mv = matches_view(ms@);
                let mut reps: Vec<Vec<char>> = Vec::new();
                let mut i: usize = 0;
                while i < ms.len()
                    invariant
                        0 <= i <= ms.len(),
                        mv == matches_view(ms@),
                        reps@.len() == i,
                        forall|k: int| 0 <= k < i ==> #[trigger] reps@[k]@ == snake_call_rep(mv[k]),
                    decreases ms.len() - i,
                {
                    let name = group(&ms[i], 1);
                    let sn = self.to_snake_case(string_of(&name).as_str());
                    let mut rep: Vec<char> = Vec::new();
                    push_str(&mut rep, ".");
                    push_str(&mut rep, sn.as_str());
                    push_str(&mut rep, "(");
                    assert(mv[i as int] == groups_view(ms@[i as int]));
                    reps.push(rep);
                    i = i + 1;
                }
                let ghost want = mv.map_values(|c: Seq<Option<Seq<char>>>| snake_call_rep(c));
                assert(vviews(reps@) =~= want);
                Ok(string_of(&splice_texts(&gaps, &reps)))
            },
            Err(m) => Err(m),
        }
    }

    /// Accesses `obj.field` in `s` rewritten as `obj.path`.
    fn rewrite_field_path(&self, s: &str, field: &str, path: &str) -> (r: String)
        ensures
            r@ == field_path_rewrite(s@, field@, path@),
    {
        let mut pat: Vec<char> = Vec::new();
        push_str(&mut pat, r"(?<!\.)\b(\w+)\.");
        push_str(&mut pat, regex_escape(field).as_str());
        push_str(&mut pat, r"(?![\w(])");
        let pat_s = string_of(&pat);
        match regex_search(pat_s.as_str(), s) {
            Ok((gaps, ms)) => {
                let ghost mv = matches_view(ms@);
                let mut reps: Vec<Vec<char>> = Vec::new();
                let mut i: usize = 0;
                while i < ms.len()
                    invariant
                        0 <= i <= ms.len(),
                        mv == matches_view(ms@),
                        reps@.len() == i,
                        forall|k: int| 0 <= k < i ==> #[trigger] reps@[k]@ == grp(mv[k], 1) + "."@ + path@,
                    decreases ms.len() - i,
                {
                    let mut rep = group(&ms[i], 1);
                    push_str(&mut rep, ".");
                    push_str(&mut rep, path);
                    assert(mv[i as int] == groups_view(ms@[i as int]));
                    reps.push(rep);
                    i = i + 1;
                }
                let ghost want = mv.map_values(|c: Seq<Option<Seq<char>>>| grp(c, 1) + "."@ + path@);
                assert(vviews(reps@) =~= want);
                string_of(&splice_texts(&gaps, &reps))
            },
            Err(_) => String::from_str(s),
        }
    }

    /// A method body in Rust, with inherited fields rewritten by
    /// `field_path_map` when one is given.
    pub fn transform_self_references_with_fields(&self, body: &str, field_path_map: Option<&StrMap<String>>) -> (r: String)
        ensures
            r@ == self_refs(body@, match field_path_map {
                Some(m) => Some(path_map_view(m.entries@)),
                None => None,
            }),
    {
        let mut result = replace_all_const(r"\bthis\b", body, "self");
        match field_path_map {
            Some(map) => {
                let ghost a = result@;
                let ghost mv = path_map_view(map.entries@);
                let mut k: usize = 0;
                while k < map.entries.len()
                    invariant
                        0 <= k <= map.entries.len(),
                        mv == path_map_view(map.entries@),
                        result@ == field_paths_rewrite(a, mv.subrange(0, k as int)),
                    decreases map.entries.len() - k,
                {
                    let ghost pre = mv.subrange(0, k + 1);
                    assert(pre.drop_last() =~= mv.subrange(0, k as int));
                    assert(pre.last() == (map.entries@[k as int].0@, map.entries@[k as int].1@));
                    result = self.rewrite_field_path(result.as_str(), map.entries[k].0.as_str(), map.entries[k].1.as_str());
                    k = k + 1;
                }
                assert(mv.subrange(0, map.entries.len() as int) =~= mv);
            },
            None => {},
        }
        let c = replace_all_const(r"\bsuper\s*\([^)]*\)\s*;", result.as_str(), "// super() call removed");
        match self.snake_method_calls(c.as_str()) {
            Ok(d) => d,
            Err(_) => c,
        }
    }

    /// A method body in Rust.
    pub fn transform_self_references(&self, body: &str) -> (r: String)
        ensures
            r@ == self_refs(body@, None),
    {
        self.transform_self_references_with_fields(body, None)
    }

    /// The impl of interface `interface_name` for class `class_name`: the
    /// methods whose snake_case names are members of the interface
    /// (`trait_methods`), each taking `&self`.
    pub fn generate_trait_impl(&self, class_name: &str, interface_name: &str, methods: &Vec<ClassMethod>, trait_methods: &Vec<String>) -> (r: String)
        ensures
            r@ == trait_impl_text(class_name@, interface_name@, methods@, trait_methods@),
    {
        let mut out: Vec<char> = Vec::new();
        push_str(&mut out, "impl ");
        push_str(&mut out, interface_name);
        push_str(&mut out, " for ");
        push_str(&mut out, class_name);
        push_str(&mut out, " {");
        let ghost head = out@;
        let mut i: usize = 0;
        while i < methods.len()
            invariant
                0 <= i <= methods.len(),
                out@ == head + trait_methods_text(methods@.subrange(0, i as int), trait_methods@),
            decreases methods.len() - i,
        {
            let ghost pre = methods@.subrange(0, i + 1);
            assert(pre.drop_last() =~= methods@.subrange(0, i as int));
            let m = &methods[i];
            assert(pre.last() == *m);
            let rn = self.to_snake_case(m.name.as_str());
            if contains_text(trait_methods, rn.as_str()) {
                let ghost o0 = out@;
                push_str(&mut out, "\n    fn ");
                push_str(&mut out, rn.as_str());
                push_str(&mut out, "(&self");
                let mp = self.transform_method_params(m.params.as_str());
                push_str(&mut out, mp.as_str());
                if str_eq(m.ret_type.as_str(), "void") {
                    push_str(&mut out, ") {");
                } else {
                    push_str(&mut out, ") -> ");
                    push_str(&mut out, m.ret_type.as_str());
                    push_str(&mut out, " {");
                }
                match &m.body {
                    Some(b) => {
                        let content = strip_both(&chars_of(b.as_str()), '{', '}');
                        let t = self.transform_self_references(string_of(&content).as_str());
                        push_str(&mut out, t.as_str());
                    },
                    None => {},
                }
                push_str(&mut out, "\n    }");
                assert(out@ =~= o0 + trait_method_text(*m, trait_methods@));
            }
            i = i + 1;
        }
        assert(methods@.subrange(0, methods.len() as int) =~= methods@);
        push_str(&mut out, "\n}\n");
        string_of(&out)
    }

    /// The fields of the first definition of class `class_name` in
    /// `source`, each once.
    pub fn extract_class_fields(&self, source: &str, class_name: &str) -> (r: Vec<String>)
        ensures
            strings(r@) == class_fields(source@, class_name@),
    {
        let mut pat: Vec<char> = Vec::new();
        push_str(&mut pat, r"(?m)^\s*class\s+");
        push_str(&mut pat, regex_escape(class_name).as_str());
        push_str(&mut pat, r"\s*(?:extends\s+\w+)?\s*(?:implements\s+[\w,\s]+)?\s*\{([\s\S]*?)^\}");
        let pat_s = string_of(&pat);
        match regex_search(pat_s.as_str(), source) {
            Ok((_gaps, ms)) => {
                if ms.len() > 0 {
                    let body = group(&ms[0], 1);
                    assert(matches_view(ms@)[0] == groups_view(ms@[0]));
                    body_field_names(string_of(&body).as_str())
                } else {
                    Vec::new()
                }
            },
            Err(_) => Vec::new(),
        }
    }

    /// The inherited fields of class `class_name` mapped to the path of the
    /// nearest ancestor declaring them (`Parent.GrandParent`), for fields
    /// the class does not declare itself.
    pub fn build_field_path_map(&self, class_name: &str, class_table: &StrMap<ClassInfo>, source: &str) -> (r: StrMap<String>)
        ensures
            path_map_view(r.entries@) == field_paths(source@, class_table.entries@, class_name@),
    {
        let own = self.extract_class_fields(source, class_name);
        let anc = ancestors_of(class_table, class_name);
        let ghost ancv = strings(anc@);
        let ghost ownv = strings(own@);
        let mut m: Vec<(String, String)> = Vec::new();
        let mut pfx: Vec<char> = Vec::new();
        let mut k: usize = 0;
        assert(path_map_view(m@) =~= Seq::<(Seq<char>, Seq<char>)>::empty());
        while k < anc.len()
            invariant
                0 <= k <= anc.len(),
                ancv == strings(anc@),
                ownv == strings(own@),
                ownv == class_fields(source@, class_name@),
                ancv == ancestors(class_table.entries@, class_name@),
                pfx@ == prefix_of(ancv, k as int),
                path_map_view(m@) == paths_upto(source@, ancv, ownv, k as int),
            decreases anc.len() - k,
        {
            assert(ancv[k as int] == anc@[k as int]@);
            if pfx.len() == 0 {
                pfx = chars_of(anc[k].as_str());
            } else {
                push_str(&mut pfx, ".");
                push_str(&mut pfx, anc[k].as_str());
            }
            let fs = self.extract_class_fields(source, anc[k].as_str());
            let ghost fsv = strings(fs@);
            let ghost m0 = path_map_view(m@);
            let mut j: usize = 0;
            assert(add_fields(m0, fsv.subrange(0, 0), ownv, pfx@) == m0);
            while j < fs.len()
                invariant
                    0 <= j <= fs.len(),
                    fsv == strings(fs@),
                    ownv == strings(own@),
                    path_map_view(m@) == add_fields(m0, fsv.subrange(0, j as int), ownv, pfx@),
                decreases fs.len() - j,
            {
                let ghost pre = fsv.subrange(0, j + 1);
                assert(pre.drop_last() =~= fsv.subrange(0, j as int));
                assert(pre.last() == fs@[j as int]@);
                let f = chars_of(fs[j].as_str());
                if !has_text(&own, &f) && !maps_key(&m, &f) {
                    let ghost mv = path_map_view(m@);
                    m.push((string_of(&f), string_of(&pfx)));
                    assert(path_map_view(m@) =~= mv.push((f@, pfx@)));
                }
                j = j + 1;
            }
            assert(fsv.subrange(0, fs.len() as int) =~= fsv);
            k = k + 1;
        }
        StrMap { entries: m }
    }

    /// A constructor's body in Rust.
    fn ctor_body_text(&self, m: &ClassMethod, parent: &Option<String>) -> (r: Vec<char>)
        ensures
            r@ == ctor_body(*m, parent.deep_view()),
    {
        let assigns = match &m.body {
            Some(b) => ctor_assign_list(string_of(&strip_both(&chars_of(b.as_str()), '{', '}')).as_str()),
            None => Vec::new(),
        };
        let mut out: Vec<char> = Vec::new();
        if assigns.len() == 0 {
            push_str(&mut out, "\n        Self::default()");
            return out;
        }
        match parent {
            Some(p) => {
                let sa = match &m.body {
                    Some(b) => super_call_args(b.as_str()),
                    None => Vec::new(),
                };
                if sa.len() == 0 {
                    push_str(&mut out, "\n        Self { ");
                    append_vec(&mut out, &join_vec(&assigns, ", "));
                    push_str(&mut out, ", ..Default::default() }");
                } else {
                    push_str(&mut out, "\n        Self {\n            ");
                    push_str(&mut out, p.as_str());
                    push_str(&mut out, ": ");
                    push_str(&mut out, p.as_str());
                    push_str(&mut out, "::new(");
                    append_vec(&mut out, &sa);
                    push_str(&mut out, "),\n            ");
                    append_vec(&mut out, &join_vec(&assigns, ",\n            "));
                    push_str(&mut out, ",\n            ..Default::default()\n        }");
                }
            },
            None => {
                push_str(&mut out, "\n        Self { ");
                append_vec(&mut out, &join_vec(&assigns, ", "));
                push_str(&mut out, ", ..Default::default() }");
            },
        }
        out
    }

    /// One method of an inherent impl.
    fn inherent_method(&self, m: &ClassMethod, parent: &Option<String>, fm: &StrMap<String>) -> (r: Vec<char>)
        ensures
            r@ == inherent_method_text(*m, parent.deep_view(), path_map_view(fm.entries@)),
    {
        let mut out: Vec<char> = Vec::new();
        if str_eq(m.ret_type.as_str(), "Self") {
            let np = params_vec(&chars_of(m.params.as_str()));
            push_str(&mut out, "\n    ");
            match m.visibility {
                Visibility::Public => push_str(&mut out, "pub "),
                Visibility::Private => {},
            }
            if np.len() == 0 {
                push_str(&mut out, "fn new() -> Self {");
            } else {
                push_str(&mut out, "fn new(");
                append_vec(&mut out, &np);
                push_str(&mut out, ") -> Self {");
            }
            append_vec(&mut out, &self.ctor_body_text(m, parent));
            push_str(&mut out, "\n    }");
        } else {
            let needs_mut = match &m.body {
                Some(b) => body_writes_field(b.as_str()),
                None => false,
            };
            push_str(&mut out, "\n    ");
            match m.visibility {
                Visibility::Public => push_str(&mut out, "pub "),
                Visibility::Private => {},
            }
            push_str(&mut out, "fn ");
            push_str(&mut out, self.to_snake_case(m.name.as_str()).as_str());
            push_str(&mut out, "(");
            if needs_mut {
                push_str(&mut out, "&mut self");
            } else {
                push_str(&mut out, "&self");
            }
            push_str(&mut out, self.transform_method_params(m.params.as_str()).as_str());
            if str_eq(m.ret_type.as_str(), "void") {
                push_str(&mut out, ") {");
            } else {
                push_str(&mut out, ") -> ");
                push_str(&mut out, m.ret_type.as_str());
                push_str(&mut out, " {");
            }
            match &m.body {
                Some(b) => {
                    let content = strip_both(&chars_of(b.as_str()), '{', '}');
                    let t = self.transform_self_references_with_fields(string_of(&content).as_str(), Some(fm));
                    push_str(&mut out, t.as_str());
                },
                None => push_str(&mut out, "()"),
            }
            push_str(&mut out, "\n    }");
        }
        out
    }

    /// The inherent impl of class `class_name`: constructors become `new`,
    /// other methods are translated with the field paths of inherited
    /// fields.
    pub fn generate_inherent_impl(&self, class_name: &str, methods: &Vec<ClassMethod>, class_table: &StrMap<ClassInfo>, source: &str) -> (r: String)
        ensures
            r@ == inherent_impl_text(class_name@, methods@, class_table.entries@, source@),
    {
        let mut out: Vec<char> = Vec::new();
        push_str(&mut out, "impl ");
        push_str(&mut out, class_name);
        push_str(&mut out, " {");
        let fm = self.build_field_path_map(class_name, class_table, source);
        let parent = parent_in(class_table, class_name);
        let ghost head = out@;
        let mut i: usize = 0;
        while i < methods.len()
            invariant
                0 <= i <= methods.len(),
                parent.deep_view() == parent_of(class_table.entries@, class_name@),
                path_map_view(fm.entries@) == field_paths(source@, class_table.entries@, class_name@),
                out@ == head + inherent_methods_text(methods@.subrange(0, i as int), parent.deep_view(), path_map_view(fm.entries@)),
            decreases methods.len() - i,
        {
            let ghost pre = methods@.subrange(0, i + 1);
            assert(pre.drop_last() =~= methods@.subrange(0, i as int));
            assert(pre.last() == methods@[i as int]);
            let t = self.inherent_method(&methods[i], &parent, &fm);
            append_vec(&mut out, &t);
            i = i + 1;
        }
        assert(methods@.subrange(0, methods.len() as int) =~= methods@);
        push_str(&mut out, "\n}\n");
        string_of(&out)
    }

    /// The receiver a delegating impl forwards to.
    fn delegation_path(&self, iface: &str, parent_class: Option<&str>, parent_chain: &Vec<String>, class_table: &StrMap<ClassInfo>) -> (r: Vec<char>)
        ensures
            r@ == deleg_path(class_table.entries@, iface@, match parent_class {
                Some(p) => Some(p@),
                None => None,
            }, strings(parent_chain@)),
    {
        let mut out: Vec<char> = Vec::new();
        match parent_class {
            None => {
                push_str(&mut out, "self");
                out
            },
            Some(p) => {
                push_str(&mut out, "self.");
                push_str(&mut out, p);
                if self.class_implements_interface(p, iface, class_table) {
                    return out;
                }
                let ghost chain = strings(parent_chain@);
                let mut visited: Vec<String> = Vec::new();
                visited.push(String::from_str(p));
                let mut path = sub_vec_copy(&out);
                let mut k: usize = 1;
                assert(strings(visited@) =~= seq![p@]);
                while k < parent_chain.len()
                    invariant
                        1 <= k,
                        chain == strings(parent_chain@),
                        out@ == "self."@ + p@,
                        !implements(class_table.entries@, p@, iface@),
                        parent_class == Some(p),
                        deleg_search(class_table.entries@, iface@, chain, 1, seq![p@], "self."@ + p@)
                            == deleg_search(class_table.entries@, iface@, chain, k as int, strings(visited@), path@),
                    decreases parent_chain.len() - k,
                {
                    let a = chars_of(parent_chain[k].as_str());
                    assert(chain[k as int] == a@);
                    if has_text(&visited, &a) {
                        return out;
                    }
                    let ghost v0 = strings(visited@);
                    visited.push(string_of(&a));
                    assert(strings(visited@) =~= v0.push(a@));
                    push_str(&mut path, ".");
                    append_vec(&mut path, &a);
                    if self.class_implements_interface(parent_chain[k].as_str(), iface, class_table) {
                        return path;
                    }
                    k = k + 1;
                }
                out
            },
        }
    }

    /// The parameter names of trimmed parameter list `pc`, joined by `, `.
    fn param_name_list(&self, pc: &Vec<char>) -> (r: Vec<char>)
        ensures
            r@ == join(param_names(split_on(pc@, ',')), ", "@),
    {
        let pieces = split_vec(pc, ',');
        let ghost ps = vviews(pieces@);
        let mut names: Vec<Vec<char>> = Vec::new();
        let mut i: usize = 0;
        while i < pieces.len()
            invariant
                0 <= i <= pieces.len(),
                ps == vviews(pieces@),
                vviews(names@) == param_names(ps.subrange(0, i as int)),
            decreases pieces.len() - i,
        {
            let ghost pre = ps.subrange(0, i + 1);
            assert(pre.drop_last() =~= ps.subrange(0, i as int));
            assert(pre.last() == pieces@[i as int]@);
            let p = trim_vec(&pieces[i]);
            if p.len() > 0 {
                let n = param_name_vec(&p);
                let ghost n0 = vviews(names@);
                names.push(n);
                assert(vviews(names@) =~= n0.push(n@));
            }
            i = i + 1;
        }
        assert(ps.subrange(0, pieces.len() as int) =~= ps);
        join_vec(&names, ", ")
    }

    /// A method forwarding to `path`.
    fn delegate_method(&self, name: &str, path: &Vec<char>, source: &str) -> (r: Vec<char>)
        ensures
            r@ == deleg_method_text(name@, path@, source@),
    {
        let mut pat: Vec<char> = Vec::new();
        push_str(&mut pat, r"fn\s+");
        push_str(&mut pat, regex_escape(name).as_str());
        push_str(&mut pat, r"\s*\(([^)]*)\)");
        let params: Vec<char> = match regex_search(string_of(&pat).as_str(), source) {
            Ok((_g, ms)) => if ms.len() > 0 {
                assert(matches_view(ms@)[0] == groups_view(ms@[0]));
                group(&ms[0], 1)
            } else {
                Vec::new()
            },
            Err(_) => Vec::new(),
        };
        let a = remove_all_vec(&params, "&mut self");
        let b = remove_all_vec(&a, "&self");
        let c = trim_vec(&b);
        let pc = trim_vec(&strip_lead_vec(&c, ','));
        let mut out: Vec<char> = Vec::new();
        push_str(&mut out, "    fn ");
        push_str(&mut out, name);
        push_str(&mut out, "(");
        if pc.len() == 0 {
            push_str(&mut out, "&self");
        } else {
            push_str(&mut out, "&self, ");
            append_vec(&mut out, &pc);
        }
        push_str(&mut out, ") {\n        ");
        append_vec(&mut out, path);
        push_str(&mut out, ".");
        push_str(&mut out, name);
        push_str(&mut out, "(");
        append_vec(&mut out, &self.param_name_list(&pc));
        push_str(&mut out, ")");
        push_str(&mut out, "\n    }\n");
        out
    }

    /// The impl of interface `interface_name` for class `class_name` that
    /// forwards each of `method_names` to the nearest ancestor implementing
    /// the interface (the parent when none does).
    pub fn generate_delegate_trait_impl(&self, class_name: &str, interface_name: &str, parent_class: Option<&str>, parent_chain: &Vec<String>, method_names: &Vec<String>, class_table: &StrMap<ClassInfo>, source: &str) -> (r: String)
        ensures
            r@ == deleg_impl_text(class_name@, interface_name@, match parent_class {
                Some(p) => Some(p@),
                None => None,
            }, strings(parent_chain@), strings(method_names@), class_table.entries@, source@),
    {
        let mut out: Vec<char> = Vec::new();
        push_str(&mut out, "impl ");
        push_str(&mut out, interface_name);
        push_str(&mut out, " for ");
        push_str(&mut out, class_name);
        push_str(&mut out, " {\n");
        let path = self.delegation_path(interface_name, parent_class, parent_chain, class_table);
        let ghost head = out@;
        let ghost names = strings(method_names@);
        let mut i: usize = 0;
        while i < method_names.len()
            invariant
                0 <= i <= method_names.len(),
                names == strings(method_names@),
                out@ == head + deleg_methods_text(names.subrange(0, i as int), path@, source@),
            decreases method_names.len() - i,
        {
            let ghost pre = names.subrange(0, i + 1);
            assert(pre.drop_last() =~= names.subrange(0, i as int));
            assert(pre.last() == method_names@[i as int]@);
            let t = self.delegate_method(method_names[i].as_str(), &path, source);
            append_vec(&mut out, &t);
            i = i + 1;
        }
        assert(names.subrange(0, method_names.len() as int) =~= names);
        push_str(&mut out, "}\n");
        string_of(&out)
    }

    /// The trait impls for `ifs`, appended to `out`.
    fn push_trait_impls(&self, out: &mut Vec<char>, class_name: &str, ifs: &Vec<Vec<char>>, methods: &Vec<ClassMethod>, trait_methods: &Vec<String>)
        ensures
            final(out)@ == old(out)@ + trait_impls_text(class_name@, vviews(ifs@), methods@, trait_methods@),
    {
        let ghost head = out@;
        let ghost v = vviews(ifs@);
        let mut i: usize = 0;
        while i < ifs.len()
            invariant
                0 <= i <= ifs.len(),
                v == vviews(ifs@),
                out@ == head + trait_impls_text(class_name@, v.subrange(0, i as int), methods@, trait_methods@),
            decreases ifs.len() - i,
        {
            let ghost pre = v.subrange(0, i + 1);
            assert(pre.drop_last() =~= v.subrange(0, i as int));
            assert(pre.last() == ifs@[i as int]@);
            let t = self.generate_trait_impl(class_name, string_of(&ifs[i]).as_str(), methods, trait_methods);
            push_str(out, t.as_str());
            i = i + 1;
        }
        assert(v.subrange(0, ifs.len() as int) =~= v);
    }

    /// The impls of a class: one per declared interface, a forwarding impl
    /// for each interface only an ancestor declares (the keys of
    /// `interface_methods_map` not declared by the class), and the inherent
    /// impl.
    pub fn generate_impl_with_delegation(
        &self,
        class_name: &str,
        methods: &Vec<ClassMethod>,
        parent_class: Option<&str>,
        interfaces: Option<&str>,
        trait_methods: &Vec<String>,
        parent_chain: &Vec<String>,
        interface_methods_map: &StrMap<Vec<String>>,
        class_table: &StrMap<ClassInfo>,
        source: &str,
    ) -> (r: String)
        ensures
            ({
                let own = own_ifaces(match interfaces {
                    Some(s) => Some(s@),
                    None => None,
                });
                let pv = match parent_class {
                    Some(p) => Some(p@),
                    None => None,
                };
                r@ == trait_impls_text(class_name@, own, methods@, trait_methods@) + deleg_impls_text(
                    class_name@,
                    inherited_ifaces(interface_methods_map.entries@, own),
                    pv,
                    strings(parent_chain@),
                    interface_methods_map.entries@,
                    class_table.entries@,
                    source@,
                ) + inherent_impl_text(class_name@, methods@, class_table.entries@, source@)
            }),
    {
        let mut own: Vec<Vec<char>> = Vec::new();
        match interfaces {
            Some(sv) => {
                let pieces = split_vec(&chars_of(sv), ',');
                let ghost ps = vviews(pieces@);
                let mut i: usize = 0;
                assert(vviews(own@) =~= Seq::<Seq<char>>::empty());
                while i < pieces.len()
                    invariant
                        0 <= i <= pieces.len(),
                        ps == vviews(pieces@),
                        vviews(own@) == nonempty_trimmed(ps.subrange(0, i as int)),
                    decreases pieces.len() - i,
                {
                    let ghost pre = ps.subrange(0, i + 1);
                    assert(pre.drop_last() =~= ps.subrange(0, i as int));
                    assert(pre.last() == pieces@[i as int]@);
                    let p = trim_vec(&pieces[i]);
                    if p.len() > 0 {
                        let ghost o0 = vviews(own@);
                        own.push(p);
                        assert(vviews(own@) =~= o0.push(p@));
                    }
                    i = i + 1;
                }
                assert(ps.subrange(0, pieces.len() as int) =~= ps);
            },
            None => {
                assert(vviews(own@) =~= Seq::<Seq<char>>::empty());
            },
        }
        let ghost ownv = vviews(own@);
        let mut out: Vec<char> = Vec::new();
        self.push_trait_impls(&mut out, class_name, &own, methods, trait_methods);
        let m = &interface_methods_map.entries;
        let ghost head = out@;
        let ghost pv = match parent_class {
            Some(p) => Some(p@),
            None => None,
        };
        let mut inherited: Vec<Vec<char>> = Vec::new();
        let mut k: usize = 0;
        assert(vviews(inherited@) =~= Seq::<Seq<char>>::empty());
        while k < m.len()
            invariant
                0 <= k <= m.len(),
                ownv == vviews(own@),
                m@ == interface_methods_map.entries@,
                vviews(inherited@) == inherited_ifaces(m@.subrange(0, k as int), ownv),
            decreases m.len() - k,
        {
            let ghost pre = m@.subrange(0, k + 1);
            assert(pre.drop_last() =~= m@.subrange(0, k as int));
            let key = chars_of(m[k].0.as_str());
            let mut found = false;
            let mut j: usize = 0;
            while j < own.len()
                invariant
                    0 <= j <= own.len(),
                    k < m.len(),
                    key@ == m@[k as int].0@,
                    ownv == vviews(own@),
                    found == exists|q: int| 0 <= q < j && ownv[q] == key@,
                decreases own.len() - j,
            {
                assert(ownv[j as int] == own@[j as int]@);
                if same_text(&own[j], m[k].0.as_str()) {
                    found = true;
                }
                j = j + 1;
            }
            proof {
                if found {
                    let q = choose|q: int| 0 <= q < own.len() && ownv[q] == key@;
                    assert(ownv.contains(key@));
                } else {
                    assert(!ownv.contains(key@));
                }
            }
            if !found {
                let ghost i0 = vviews(inherited@);
                inherited.push(key);
                assert(vviews(inherited@) =~= i0.push(m@[k as int].0@));
            }
            k = k + 1;
        }
        assert(m@.subrange(0, m.len() as int) =~= m@);
        let ghost iv = vviews(inherited@);
        let mut i: usize = 0;
        while i < inherited.len()
            invariant
                0 <= i <= inherited.len(),
                iv == vviews(inherited@),
                m@ == interface_methods_map.entries@,
                out@ == head + deleg_impls_text(class_name@, iv.subrange(0, i as int), pv, strings(parent_chain@), m@, class_table.entries@, source@),
                pv == match parent_class {
                    Some(p) => Some(p@),
                    None => None::<Seq<char>>,
                },
            decreases inherited.len() - i,
        {
            let ghost pre = iv.subrange(0, i + 1);
            assert(pre.drop_last() =~= iv.subrange(0, i as int));
            assert(pre.last() == inherited@[i as int]@);
            let name = string_of(&inherited[i]);
            let names: Vec<String> = match interface_methods_map.get(name.as_str()) {
                Some(v) => copy_strings(v),
                None => Vec::new(),
            };
            let t = self.generate_delegate_trait_impl(class_name, name.as_str(), parent_class, parent_chain, &names, class_table, source);
            push_str(&mut out, t.as_str());
            i = i + 1;
        }
        assert(iv.subrange(0, inherited.len() as int) =~= iv);
        let inh = self.generate_inherent_impl(class_name, methods, class_table, source);
        push_str(&mut out, inh.as_str());
        string_of(&out)
    }

    /// The impls of a class: one per interface listed in `interfaces`
    /// (split at commas and trimmed), then the inherent impl.
    pub fn generate_impl(
        &self,
        class_name: &str,
        methods: &Vec<ClassMethod>,
        _parent_class: Option<&str>,
        interfaces: Option<&str>,
        trait_methods: &Vec<String>,
        class_table: &StrMap<ClassInfo>,
        source: &str,
    ) -> (r: String)
        ensures
            r@ == (match interfaces {
                Some(s) => trait_impls_text(class_name@, split_on(s@, ',').map_values(|p: Seq<char>| trim(p)), methods@, trait_methods@),
                None => Seq::empty(),
            }) + inherent_impl_text(class_name@, methods@, class_table.entries@, source@),
    {
        let mut out: Vec<char> = Vec::new();
        match interfaces {
            Some(sv) => {
                let pieces = split_vec(&chars_of(sv), ',');
                let ghost want = split_on(sv@, ',').map_values(|p: Seq<char>| trim(p));
                let mut ifs: Vec<Vec<char>> = Vec::new();
                let mut i: usize = 0;
                while i < pieces.len()
                    invariant
                        0 <= i <= pieces.len(),
                        vviews(pieces@) == split_on(sv@, ','),
                        want == split_on(sv@, ',').map_values(|p: Seq<char>| trim(p)),
                        ifs@.len() == i,
                        vviews(ifs@) == want.subrange(0, i as int),
                    decreases pieces.len() - i,
                {
                    let t = trim_vec(&pieces[i]);
                    assert(vviews(pieces@)[i as int] == pieces@[i as int]@);
                    ifs.push(t);
                    assert(vviews(ifs@) =~= want.subrange(0, i + 1));
                    i = i + 1;
                }
                assert(want.subrange(0, pieces.len() as int) =~= want);
                self.push_trait_impls(&mut out, class_name, &ifs, methods, trait_methods);
            },
            None => {},
        }
        let inh = self.generate_inherent_impl(class_name, methods, class_table, source);
        push_str(&mut out, inh.as_str());
        string_of(&out)
    }

    /// A C-style array type in Rust: `i32[5]` is `[i32; 5]`, `i32[2][3]`
    /// is `[[i32; 3]; 2]`; other types unchanged.
    pub fn c_array_type_to_rust(&self, t: &str) -> (r: String)
        ensures
            r@ == rust_array_type(t@),
    {
        match regex_search(r"^([a-zA-Z_]\w*)((?:\[\d+\])+)$", t) {
            Ok((_g, ms)) => {
                if ms.len() == 0 {
                    return String::from_str(t);
                }
                assert(matches_view(ms@)[0] == groups_view(ms@[0]));
                let base = group(&ms[0], 1);
                let dims_text = string_of(&group(&ms[0], 2));
                let ds: Vec<Vec<char>> = match regex_search(r"\[(\d+)\]", dims_text.as_str()) {
                    Ok((_g2, ms2)) => {
                        let ghost mv = matches_view(ms2@);
                        let mut ds: Vec<Vec<char>> = Vec::new();
                        let mut i: usize = 0;
                        while i < ms2.len()
                            invariant
                                0 <= i <= ms2.len(),
                                mv == matches_view(ms2@),
                                ds@.len() == i,
                                forall|k: int| 0 <= k < i ==> #[trigger] ds@[k]@ == grp(mv[k], 1),
                            decreases ms2.len() - i,
                        {
                            assert(mv[i as int] == groups_view(ms2@[i as int]));
                            ds.push(group(&ms2[i], 1));
                            i = i + 1;
                        }
                        assert(vviews(ds@) =~= mv.map_values(|c: Seq<Option<Seq<char>>>| grp(c, 1)));
                        ds
                    },
                    Err(_) => Vec::new(),
                };
                let ghost dv = vviews(ds@);
                let mut ty = base;
                let mut k: usize = ds.len();
                assert(dv.subrange(dv.len() as int, dv.len() as int) =~= Seq::<Seq<char>>::empty());
                while k > 0
                    invariant
                        k <= ds.len(),
                        dv == vviews(ds@),
                        ty@ == wrap_dims(grp(matches_view(ms@)[0], 1), dv.subrange(k as int, dv.len() as int)),
                    decreases k,
                {
                    let ghost suf = dv.subrange(k - 1, dv.len() as int);
                    assert(suf.drop_first() =~= dv.subrange(k as int, dv.len() as int));
                    assert(suf[0] == ds@[k - 1]@);
                    let mut n: Vec<char> = Vec::new();
                    push_str(&mut n, "[");
                    append_vec(&mut n, &ty);
                    push_str(&mut n, "; ");
                    append_vec(&mut n, &ds[k - 1]);
                    push_str(&mut n, "]");
                    ty = n;
                    k = k - 1;
                }
                assert(dv.subrange(0, dv.len() as int) =~= dv);
                string_of(&ty)
            },
            Err(_) => String::from_str(t),
        }
    }

    /// A field declaration `[public] Type name;`; `None` when it has too few
    /// words or its type is a keyword.
    pub fn parse_field(&self, line: &str) -> (r: Option<ClassField>)
        ensures
            match r {
                Some(f) => field_decl(line@) == Some((f.name@, f.ty@, f.visibility is Public)),
                None => field_decl(line@) is None,
            },
    {
        let w = words_vec(&chars_of(line));
        let ghost wv = vviews(w@);
        let is_pub = w.len() > 0 && same_text(&w[0], "public");
        proof {
            if w.len() > 0 {
                assert(wv[0] == w@[0]@);
            }
        }
        let idx: usize = if is_pub { 1 } else { 0 };
        if w.len() < idx + 2 {
            return None;
        }
        assert(wv[idx as int] == w@[idx as int]@);
        assert(wv[idx + 1] == w@[idx + 1]@);
        if is_not_type(&w[idx]) {
            return None;
        }
        let name = strip_trail_vec(&w[idx + 1], ';');
        let ty = self.c_array_type_to_rust(string_of(&w[idx]).as_str());
        Some(ClassField {
            name: string_of(&name),
            ty,
            visibility: if is_pub { Visibility::Public } else { Visibility::Private },
        })
    }

    /// A method's text read as a method: a constructor `public Name(...)`
    /// (return type `Self`), else `[public] Type name(...) {...}`.
    pub fn parse_method(&self, text: &str) -> (r: Option<ClassMethod>)
        ensures
            match r {
                Some(m) => method_decl(text@) == Some(method_view(m)),
                None => method_decl(text@) is None,
            },
    {
        match regex_search(r"(?s)^\s*public\s+([A-Z]\w*)\s*\(([^)]*)\)\s*(\{.*\})?", text) {
            Ok((_g, ms)) => {
                if ms.len() > 0 {
                    assert(matches_view(ms@)[0] == groups_view(ms@[0]));
                    let body = if has_group(&ms[0], 3) {
                        Some(string_of(&group(&ms[0], 3)))
                    } else {
                        None
                    };
                    return Some(ClassMethod {
                        name: string_of(&group(&ms[0], 1)),
                        ret_type: String::from_str("Self"),
                        params: string_of(&group(&ms[0], 2)),
                        body,
                        visibility: Visibility::Public,
                    });
                }
            },
            Err(_) => {},
        }
        match regex_search(r"(?s)^\s*(public\s+)?(\w+)\s+([a-zA-Z_]\w*)\s*\(([^)]*)\)\s*(\{.*\})?", text) {
            Ok((_g, ms)) => {
                if ms.len() > 0 {
                    assert(matches_view(ms@)[0] == groups_view(ms@[0]));
                    let body = if has_group(&ms[0], 5) {
                        Some(string_of(&group(&ms[0], 5)))
                    } else {
                        None
                    };
                    Some(ClassMethod {
                        name: string_of(&group(&ms[0], 3)),
                        ret_type: string_of(&group(&ms[0], 2)),
                        params: string_of(&group(&ms[0], 4)),
                        body,
                        visibility: if has_group(&ms[0], 1) { Visibility::Public } else { Visibility::Private },
                    })
                } else {
                    None
                }
            },
            Err(_) => None,
        }
    }

    /// The method spans of class body `b` (characters `bv`).
    fn find_method_spans(&self, b: &str, bv: &Vec<char>) -> (r: Vec<(usize, usize)>)
        requires
            bv@ == b@,
        ensures
            r@.map_values(|p: (usize, usize)| (p.0 as int, p.1 as int)) == method_spans(b@, 0),
            forall|k: int| 0 <= k < r@.len() ==> (#[trigger] r@[k]).0 <= r@[k].1 <= bv@.len(),
            forall|k: int| 0 < k < r@.len() ==> r@[k - 1].1 <= (#[trigger] r@[k]).0,
    {
        let mut spans: Vec<(usize, usize)> = Vec::new();
        let mut pos: usize = 0;
        let mut more = true;
        while more
            invariant
                pos <= bv@.len(),
                bv@ == b@,
                forall|k: int| 0 <= k < spans@.len() ==> (#[trigger] spans@[k]).0 <= spans@[k].1 <= pos,
                forall|k: int| 0 < k < spans@.len() ==> spans@[k - 1].1 <= (#[trigger] spans@[k]).0,
                more ==> method_spans(b@, 0) == spans_view(spans@) + method_spans(b@, pos as int),
                !more ==> method_spans(b@, 0) == spans_view(spans@),
            decreases bv@.len() - pos + (if more { 1int } else { 0int }),
        {
            let rest = string_of_range(bv, pos, bv.len());
            let ghost sp0 = spans_view(spans@);
            match regex_search(r"(?s)(public\s+)?(?:(\w+)\s+)?([a-zA-Z_]\w*)\s*\(([^)]*)\)\s*\{", rest.as_str()) {
                Ok((gaps, ms)) => {
                    if ms.len() == 0 {
                        more = false;
                        assert(sp0 + Seq::<(int, int)>::empty() =~= sp0);
                    } else {
                        let ghost g = strings(gaps@);
                        let ghost w = whole(matches_view(ms@));
                        assert(matches_view(ms@)[0] == groups_view(ms@[0]));
                        proof {
                            crate::pattern::lemma_first_match_within(g, w, rest@);
                        }
                        let glen = chars_of(gaps[0].as_str()).len();
                        let wlen = group(&ms[0], 0).len();
                        let st = pos + glen;
                        let en = st + wlen;
                        let mut depth: i128 = 1;
                        let mut ins = false;
                        let mut p = en;
                        while p < bv.len()
                            invariant_except_break
                                span_end(b@, en as int, 1, false) == span_end(b@, p as int, depth as int, ins),
                            invariant
                                bv@ == b@,
                                en <= p <= bv@.len(),
                                1 <= depth <= p - en + 1,
                            ensures
                                span_end(b@, en as int, 1, false) == p as int,
                            decreases bv@.len() - p,
                        {
                            let c = bv[p];
                            if ins {
                                if c == '\\' {
                                    p = p + 1;
                                    continue;
                                }
                                if c == '"' {
                                    ins = false;
                                }
                            } else if c == '"' {
                                ins = true;
                            } else if c == '{' {
                                depth = depth + 1;
                            } else if c == '}' {
                                if depth == 1 {
                                    p = p + 1;
                                    break;
                                }
                                depth = depth - 1;
                            }
                            p = p + 1;
                        }
                        if pos < p {
                            spans.push((st, p));
                            assert(spans@.map_values(|q: (usize, usize)| (q.0 as int, q.1 as int)) =~= sp0.push((st as int, p as int)));
                            assert(sp0 + method_spans(b@, pos as int) =~= sp0.push((st as int, p as int)) + method_spans(b@, p as int));
                            pos = p;
                        } else {
                            more = false;
                            assert(sp0 + Seq::<(int, int)>::empty() =~= sp0);
                        }
                    }
                },
                Err(_) => {
                    more = false;
                    assert(sp0 + Seq::<(int, int)>::empty() =~= sp0);
                },
            }
        }
        spans
    }

    /// The methods read from `spans` of class body `body`.
    fn span_method_list(&self, body: &str, bv: &Vec<char>, spans: &Vec<(usize, usize)>) -> (r: Vec<ClassMethod>)
        requires
            bv@ == body@,
            forall|k: int| 0 <= k < spans@.len() ==> (#[trigger] spans@[k]).0 <= spans@[k].1 <= bv@.len(),
        ensures
            r@.map_values(|m: ClassMethod| method_view(m)) == span_methods(body@, spans_view(spans@)),
    {
        let ghost sp = spans_view(spans@);
        let mut methods: Vec<ClassMethod> = Vec::new();
        let mut i: usize = 0;
        while i < spans.len()
            invariant
                0 <= i <= spans.len(),
                bv@ == body@,
                sp == spans_view(spans@),
                forall|k: int| 0 <= k < spans@.len() ==> (#[trigger] spans@[k]).0 <= spans@[k].1 <= bv@.len(),
                methods@.map_values(|m: ClassMethod| method_view(m)) == span_methods(body@, sp.subrange(0, i as int)),
            decreases spans.len() - i,
        {
            let ghost pre = sp.subrange(0, i + 1);
            assert(pre.drop_last() =~= sp.subrange(0, i as int));
            let (a, e) = spans[i];
            assert(pre.last() == (a as int, e as int));
            let ghost m0 = methods@.map_values(|m: ClassMethod| method_view(m));
            match self.parse_method(string_of_range(bv, a, e).as_str()) {
                Some(m) => {
                    methods.push(m);
                    assert(methods@.map_values(|m: ClassMethod| method_view(m)) =~= m0.push(method_view(m)));
                },
                None => {},
            }
            i = i + 1;
        }
        assert(sp.subrange(0, spans.len() as int) =~= sp);
        methods
    }

    /// The fields declared by the lines of `text`.
    fn field_list(&self, text: &Vec<char>) -> (r: Vec<ClassField>)
        ensures
            r@.map_values(|f: ClassField| field_view(f)) == line_fields(lines(text@)),
    {
        let ls = split_lines(text);
        let ghost lv = vviews(ls@);
        let mut fields: Vec<ClassField> = Vec::new();
        let mut j: usize = 0;
        while j < ls.len()
            invariant
                0 <= j <= ls.len(),
                lv == vviews(ls@),
                fields@.map_values(|f: ClassField| field_view(f)) == line_fields(lv.subrange(0, j as int)),
            decreases ls.len() - j,
        {
            let ghost pre = lv.subrange(0, j + 1);
            assert(pre.drop_last() =~= lv.subrange(0, j as int));
            assert(pre.last() == ls@[j as int]@);
            let t = trim_vec(&ls[j]);
            if !is_blank_or_comment(&t) {
                let ghost f0 = fields@.map_values(|f: ClassField| field_view(f));
                match self.parse_field(string_of(&ls[j]).as_str()) {
                    Some(f) => {
                        fields.push(f);
                        assert(fields@.map_values(|f: ClassField| field_view(f)) =~= f0.push(field_view(f)));
                    },
                    None => {},
                }
            }
            j = j + 1;
        }
        assert(lv.subrange(0, ls.len() as int) =~= lv);
        fields
    }

    /// A class body read as its fields (from the text outside methods,
    /// line by line, skipping blank and comment lines) and its methods
    /// (each signature with its brace-matched body).
    pub fn parse_class_body(&self, body: &str) -> (r: (Vec<ClassField>, Vec<ClassMethod>))
        ensures
            r.0@.map_values(|f: ClassField| field_view(f)) == class_body(body@).0,
            r.1@.map_values(|m: ClassMethod| method_view(m)) == class_body(body@).1,
    {
        let bv = chars_of(body);
        let spans = self.find_method_spans(body, &bv);
        let methods = self.span_method_list(body, &bv, &spans);
        let gaps = outside_text(body, &bv, &spans);
        let fields = self.field_list(&gaps);
        (fields, methods)
    }

    /// One method of a flattened nested class.
    fn flat_method(&self, m: &ClassMethod) -> (r: Vec<char>)
        ensures
            r@ == flat_method_text(method_view(*m)),
    {
        let mut out: Vec<char> = Vec::new();
        push_str(&mut out, "\n    ");
        match m.visibility {
            Visibility::Public => push_str(&mut out, "pub "),
            Visibility::Private => {},
        }
        push_str(&mut out, "fn ");
        push_str(&mut out, m.name.as_str());
        push_str(&mut out, "(");
        if m.params.as_str().is_empty() {
            push_str(&mut out, "&self");
        } else {
            push_str(&mut out, "&self, ");
            push_str(&mut out, m.params.as_str());
        }
        if str_eq(m.ret_type.as_str(), "void") || m.ret_type.as_str().is_empty() {
            push_str(&mut out, ") {");
        } else {
            push_str(&mut out, ") -> ");
            push_str(&mut out, m.ret_type.as_str());
            push_str(&mut out, " {");
        }
        match &m.body {
            Some(b) => {
                let ls = split_lines(&chars_of(b.as_str()));
                let ghost lv = vviews(ls@);
                let ghost head = out@;
                let mut j: usize = 0;
                while j < ls.len()
                    invariant
                        0 <= j <= ls.len(),
                        lv == vviews(ls@),
                        out@ == head + body_lines_text(lv.subrange(0, j as int)),
                    decreases ls.len() - j,
                {
                    let ghost pre = lv.subrange(0, j + 1);
                    assert(pre.drop_last() =~= lv.subrange(0, j as int));
                    assert(pre.last() == ls@[j as int]@);
                    let t = trim_vec(&ls[j]);
                    let ghost o0 = out@;
                    if t.len() > 0 {
                        push_str(&mut out, "\n        ");
                        append_vec(&mut out, &t);
                    }
                    assert(out@ =~= o0 + if trim(pre.last()).len() == 0 { Seq::<char>::empty() } else { "\n        "@ + trim(pre.last()) });
                    j = j + 1;
                }
                assert(lv.subrange(0, ls.len() as int) =~= lv);
            },
            None => {},
        }
        push_str(&mut out, "\n    }");
        out
    }

    /// Nested class definition `class_def` flattened to struct `flat_name`
    /// with its impl: fields in snake_case, every method taking `&self`,
    /// method bodies copied line by line, trimmed.
    pub fn generate_flat_nested_class(&self, flat_name: &str, class_def: &str) -> (r: String)
        requires
            def_start(class_def@) <= def_end(class_def@),
            !has_char(class_def@, '{') ==> '\u{80}' > class_def@[0],
        ensures
            r@ == flat_class_text(flat_name@, class_def@),
    {
        let d = chars_of(class_def);
        let mut st: usize = 0;
        while st < d.len() && d[st] != '{'
            invariant
                0 <= st <= d.len(),
                forall|k: int| 0 <= k < st ==> d@[k] != '{',
            decreases d.len() - st,
        {
            st = st + 1;
        }
        proof {
            crate::text::lemma_idx_of(d@, '{', st as int);
            if st < d.len() {
                assert(has_char(d@, '{'));
            } else {
                assert(!has_char(d@, '{'));
            }
        }
        let bs = if st < d.len() { st + 1 } else { 1 };
        let en = match rfind_char(&d, '}') {
            Some(e) => e,
            None => d.len(),
        };
        assert(bs == def_start(d@));
        assert(en == def_end(d@));
        let body = string_of_range(&d, bs, en);
        let (fields, methods) = self.parse_class_body(body.as_str());
        let ghost cb = class_body(body@);
        let mut out: Vec<char> = Vec::new();
        push_str(&mut out, "#[derive(Default)]\nstruct ");
        push_str(&mut out, flat_name);
        push_str(&mut out, " {");
        let ghost h1 = out@;
        let mut i: usize = 0;
        while i < fields.len()
            invariant
                0 <= i <= fields.len(),
                fields@.map_values(|f: ClassField| field_view(f)) == cb.0,
                out@ == h1 + flat_fields_text(cb.0.subrange(0, i as int)),
            decreases fields.len() - i,
        {
            let ghost pre = cb.0.subrange(0, i + 1);
            assert(pre.drop_last() =~= cb.0.subrange(0, i as int));
            assert(pre.last() == field_view(fields@[i as int]));
            push_str(&mut out, "\n    ");
            push_str(&mut out, self.to_snake_case(fields[i].name.as_str()).as_str());
            push_str(&mut out, ": ");
            push_str(&mut out, fields[i].ty.as_str());
            push_str(&mut out, ",");
            i = i + 1;
        }
        assert(cb.0.subrange(0, fields.len() as int) =~= cb.0);
        push_str(&mut out, "\n}\n");
        push_str(&mut out, "impl ");
        push_str(&mut out, flat_name);
        push_str(&mut out, " {");
        let ghost h2 = out@;
        let mut k: usize = 0;
        while k < methods.len()
            invariant
                0 <= k <= methods.len(),
                methods@.map_values(|m: ClassMethod| method_view(m)) == cb.1,
                out@ == h2 + flat_methods_text(cb.1.subrange(0, k as int)),
            decreases methods.len() - k,
        {
            let ghost pre = cb.1.subrange(0, k + 1);
            assert(pre.drop_last() =~= cb.1.subrange(0, k as int));
            assert(pre.last() == method_view(methods@[k as int]));
            append_vec(&mut out, &self.flat_method(&methods[k]));
            k = k + 1;
        }
        assert(cb.1.subrange(0, methods.len() as int) =~= cb.1);
        push_str(&mut out, "\n}\n");
        string_of(&out)
    }

    /// The nested classes of class body `body` of class `outer`, added to
    /// `tbl`.
    fn add_nested(&self, tbl: &mut NestedClassTable, outer: &Vec<char>, body: &str)
        ensures
            (path_map_view(final(tbl).inner_to_outer.entries@), path_map_view(final(tbl).nested_defs.entries@))
                == match regex_scan(class_head_pat(), body@) {
                    Some((g2, m2)) => nested_inner((path_map_view(old(tbl).inner_to_outer.entries@), path_map_view(old(tbl).nested_defs.entries@)), outer@, body@, g2, m2, m2.len() as int),
                    None => (path_map_view(old(tbl).inner_to_outer.entries@), path_map_view(old(tbl).nested_defs.entries@)),
                },
    {
        match regex_search(r"(?m)^\s*class\s+([A-Z][a-zA-Z0-9_]*)\s*\{", body) {
            Ok((gaps, ms)) => {
                let bv = chars_of(body);
                let ends = match_ends(&gaps, &ms, body);
                let ghost g = strings(gaps@);
                let ghost m = matches_view(ms@);
                let ghost t0 = (path_map_view(tbl.inner_to_outer.entries@), path_map_view(tbl.nested_defs.entries@));
                let mut i: usize = 0;
                while i < ms.len()
                    invariant
                        0 <= i <= ms.len(),
                        bv@ == body@,
                        g == strings(gaps@),
                        m == matches_view(ms@),
                        ends@.len() == ms@.len(),
                        forall|k: int| 0 <= k < ms@.len() ==> #[trigger] ends@[k] == match_end(g, whole(m), k),
                        forall|k: int| 0 <= k < ms@.len() ==> ends@[k] <= body@.len(),
                        (path_map_view(tbl.inner_to_outer.entries@), path_map_view(tbl.nested_defs.entries@)) == nested_inner(t0, outer@, body@, g, m, i as int),
                    decreases ms.len() - i,
                {
                    assert(m[i as int] == groups_view(ms@[i as int]));
                    let inner = group(&ms[i], 1);
                    let whole_len = group(&ms[i], 0).len();
                    let en = ends[i];
                    proof {
                        let ww = whole(m);
                        assert(ww[i as int] == grp(m[i as int], 0));
                        assert(whole_len <= en) by {
                            assert(match_end(g, ww, i as int) == splice(g.subrange(0, i + 1), ww.subrange(0, i as int)).len() + ww[i as int].len());
                        }
                    }
                    let st = en - whole_len;
                    put_text(&mut tbl.inner_to_outer, string_of(&inner), string_of(outer));
                    let (np, nd) = scan_depth(&bv, en);
                    if nd == 0 {
                        let mut key = sub_vec_copy(outer);
                        push_str(&mut key, ".");
                        append_vec(&mut key, &inner);
                        put_text(&mut tbl.nested_defs, string_of(&key), string_of_range(&bv, st, np));
                    }
                    i = i + 1;
                }
            },
            Err(_) => {},
        }
    }

    /// The nested classes of `source`: every class found inside the body
    /// of a class `class Outer {`, by its name and as `Outer.Inner` with its
    /// brace-matched definition.
    pub fn extract_nested_class_table(&self, source: &str) -> (r: NestedClassTable)
        ensures
            (path_map_view(r.inner_to_outer.entries@), path_map_view(r.nested_defs.entries@)) == nested_table(source@),
    {
        let mut tbl = NestedClassTable { inner_to_outer: StrMap::new(), nested_defs: StrMap::new() };
        assert(path_map_view(tbl.inner_to_outer.entries@) =~= Seq::<(Seq<char>, Seq<char>)>::empty());
        assert(path_map_view(tbl.nested_defs.entries@) =~= Seq::<(Seq<char>, Seq<char>)>::empty());
        match regex_search(r"(?m)^\s*class\s+([A-Z][a-zA-Z0-9_]*)\s*\{", source) {
            Ok((gaps, ms)) => {
                let sv = chars_of(source);
                let ends = match_ends(&gaps, &ms, source);
                let ghost g = strings(gaps@);
                let ghost m = matches_view(ms@);
                let mut i: usize = 0;
                while i < ms.len()
                    invariant
                        0 <= i <= ms.len(),
                        sv@ == source@,
                        g == strings(gaps@),
                        m == matches_view(ms@),
                        ends@.len() == ms@.len(),
                        forall|k: int| 0 <= k < ms@.len() ==> #[trigger] ends@[k] == match_end(g, whole(m), k),
                        forall|k: int| 0 <= k < ms@.len() ==> ends@[k] <= source@.len(),
                        (path_map_view(tbl.inner_to_outer.entries@), path_map_view(tbl.nested_defs.entries@)) == nested_outer(source@, g, m, i as int),
                    decreases ms.len() - i,
                {
                    assert(m[i as int] == groups_view(ms@[i as int]));
                    let name = group(&ms[i], 1);
                    let bs = ends[i];
                    let (pos, d) = scan_depth(&sv, bs);
                    if d == 0 {
                        let body = string_of_range(&sv, bs, pos - 1);
                        self.add_nested(&mut tbl, &name, body.as_str());
                    }
                    i = i + 1;
                }
            },
            Err(_) => {},
        }
        tbl
    }

    /// The interfaces of an `implements` list, trimmed, skipping empty ones.
    fn interface_list(&self, list: &Vec<char>) -> (r: Vec<String>)
        ensures
            strings(r@) == nonempty_trimmed(split_on(list@, ',')),
    {
        let pieces = split_vec(list, ',');
        let ghost ps = vviews(pieces@);
        let mut out: Vec<String> = Vec::new();
        let mut i: usize = 0;
        assert(strings(out@) =~= Seq::<Seq<char>>::empty());
        while i < pieces.len()
            invariant
                0 <= i <= pieces.len(),
                ps == vviews(pieces@),
                strings(out@) == nonempty_trimmed(ps.subrange(0, i as int)),
            decreases pieces.len() - i,
        {
            let ghost pre = ps.subrange(0, i + 1);
            assert(pre.drop_last() =~= ps.subrange(0, i as int));
            assert(pre.last() == pieces@[i as int]@);
            let p = trim_vec(&pieces[i]);
            if p.len() > 0 {
                let ghost o0 = strings(out@);
                out.push(string_of(&p));
                assert(strings(out@) =~= o0.push(p@));
            }
            i = i + 1;
        }
        assert(ps.subrange(0, pieces.len() as int) =~= ps);
        out
    }

    /// The inheritance table of `source`: every class that is not nested,
    /// with its parent and its interfaces.
    pub fn extract_class_table(&self, source: &str) -> (r: StrMap<ClassInfo>)
        ensures
            table_view(r.entries@) == class_table_of(source@),
    {
        let nested = self.extract_nested_class_table(source);
        let ghost nk = path_keys(path_map_view(nested.inner_to_outer.entries@));
        let mut t: StrMap<ClassInfo> = StrMap::new();
        assert(table_view(t.entries@) =~= Seq::<(Seq<char>, (Option<Seq<char>>, Seq<Seq<char>>))>::empty());
        match regex_search(r"(?m)^\s*class\s+([a-zA-Z_][a-zA-Z0-9_]*)\s*(?:extends\s+(\w+))?\s*(?:implements\s+([\w,\s]+))?\s*\{", source) {
            Ok((_g, ms)) => {
                let ghost m = matches_view(ms@);
                let mut i: usize = 0;
                while i < ms.len()
                    invariant
                        0 <= i <= ms.len(),
                        m == matches_view(ms@),
                        nk == path_keys(path_map_view(nested.inner_to_outer.entries@)),
                        table_view(t.entries@) == class_rows(m, nk, i as int),
                    decreases ms.len() - i,
                {
                    assert(m[i as int] == groups_view(ms@[i as int]));
                    let name = group(&ms[i], 1);
                    if !maps_key(&nested.inner_to_outer.entries, &name) {
                        let parent = if has_group(&ms[i], 2) {
                            Some(string_of(&group(&ms[i], 2)))
                        } else {
                            None
                        };
                        let interfaces = if has_group(&ms[i], 3) {
                            self.interface_list(&group(&ms[i], 3))
                        } else {
                            let v: Vec<String> = Vec::new();
                            assert(strings(v@) =~= Seq::<Seq<char>>::empty());
                            v
                        };
                        let info = ClassInfo { parent, interfaces };
                        let ghost e0 = t.entries@;
                        let key = string_of(&name);
                        proof {
                            lemma_put_info(e0, key, info);
                        }
                        t.insert(key, info);
                    }
                    i = i + 1;
                }
            },
            Err(_) => {},
        }
        t
    }

    /// How many classes the inheritance chain of `c` holds.
    fn chain_depth_of(&self, t: &StrMap<ClassInfo>, c: &str) -> (r: usize)
        ensures
            r == chain_depth(table_view(t.entries@), c@),
    {
        let mut seen: Vec<String> = Vec::new();
        seen.push(String::from_str(c));
        assert(strings(seen@) =~= seq![c@]);
        let mut cur = parent_in(t, c);
        let mut fuel: usize = t.entries.len();
        let mut more = true;
        proof {
            lemma_parent_view(t.entries@, c@);
            lemma_chain_view(t.entries@, parent_of(t.entries@, c@), seq![c@], (t.entries@.len() + 1) as nat);
            assert(table_view(t.entries@).len() == t.entries@.len());
        }
        while more
            invariant
                fuel <= t.entries.len(),
                more ==> chain_depth(table_view(t.entries@), c@) == chain(t.entries@, cur.deep_view(), strings(seen@), (fuel + 1) as nat).len(),
                !more ==> chain_depth(table_view(t.entries@), c@) == strings(seen@).len(),
            decreases fuel + (if more { 1int } else { 0int }),
        {
            let c0 = cur;
            cur = None;
            match c0 {
                Some(p) => {
                    let pv = chars_of(p.as_str());
                    if has_text(&seen, &pv) {
                        more = false;
                    } else {
                        let next = parent_in(t, p.as_str());
                        let ghost s0 = strings(seen@);
                        seen.push(p);
                        assert(strings(seen@) =~= s0.push(pv@));
                        if fuel == 0 {
                            proof {
                                assert(chain(t.entries@, next.deep_view(), strings(seen@), 0) == strings(seen@));
                            }
                            more = false;
                        } else {
                            fuel = fuel - 1;
                        }
                        cur = next;
                    }
                },
                None => {
                    more = false;
                },
            }
        }
        assert(strings(seen@).len() == seen@.len());
        seen.len()
    }

    /// The longest inheritance chain among the classes of `source`, each
    /// class counted (`A extends B extends C` is 3); 0 without classes.
    pub fn compute_max_inheritance_depth(&self, source: &str) -> (r: usize)
        ensures
            r == max_depth(class_table_of(source@), class_table_of(source@).len() as int),
    {
        let t = self.extract_class_table(source);
        let ghost tv = table_view(t.entries@);
        let mut best: usize = 0;
        let mut k: usize = 0;
        while k < t.entries.len()
            invariant
                0 <= k <= t.entries.len(),
                tv == table_view(t.entries@),
                best == max_depth(tv, k as int),
            decreases t.entries.len() - k,
        {
            assert(tv[k as int].0 == t.entries@[k as int].0@);
            let d = self.chain_depth_of(&t, t.entries[k].0.as_str());
            if d > best {
                best = d;
            }
            k = k + 1;
        }
        best
    }

    /// `use module;` lines removed (modules are handled together).
    pub fn remove_use_statements(&self, source: &str) -> (r: Result<String, TranspileError>)
        ensures
            result_view(r) == rule_remove_use(source@),
    {
        match regex_search(r"(?m)^\s*use\s+[a-zA-Z_][a-zA-Z0-9_]*\s*;", source) {
            Ok((gaps, ms)) => {
                let ghost mv = matches_view(ms@);
                let mut reps: Vec<Vec<char>> = Vec::new();
                let mut i: usize = 0;
                while i < ms.len()
                    invariant
                        0 <= i <= ms.len(),
                        mv == matches_view(ms@),
                        reps@.len() == i,
                        forall|k: int| 0 <= k < i ==> #[trigger] reps@[k]@ == rep_remove_use(mv[k]),
                    decreases ms.len() - i,
                {
                    assert(mv[i as int] == groups_view(ms@[i as int]));
                    let c = &ms[i];
                    let mut rep: Vec<char> = Vec::new();

                    assert(rep@ == rep_remove_use(mv[i as int]));
                    reps.push(rep);
                    i = i + 1;
                }
                assert(vviews(reps@) =~= mv.map_values(|c: Seq<Option<Seq<char>>>| rep_remove_use(c)));
                Ok(string_of(&splice_texts(&gaps, &reps)))
            },
            Err(m) => Err(TranspileError::TransformError(m)),
        }
    }

    /// `pass;` as `();`.
    pub fn transform_pass(&self, source: &str) -> (r: Result<String, TranspileError>)
        ensures
            result_view(r) == rule_pass(source@),
    {
        match regex_search(r"\bpass\s*;", source) {
            Ok((gaps, ms)) => {
                let ghost mv = matches_view(ms@);
                let mut reps: Vec<Vec<char>> = Vec::new();
                let mut i: usize = 0;
                while i < ms.len()
                    invariant
                        0 <= i <= ms.len(),
                        mv == matches_view(ms@),
                        reps@.len() == i,
                        forall|k: int| 0 <= k < i ==> #[trigger] reps@[k]@ == rep_pass(mv[k]),
                    decreases ms.len() - i,
                {
                    assert(mv[i as int] == groups_view(ms@[i as int]));
                    let c = &ms[i];
                    let mut rep: Vec<char> = Vec::new();
                    push_str(&mut rep, "();");
                    assert(rep@ == rep_pass(mv[i as int]));
                    reps.push(rep);
                    i = i + 1;
                }
                assert(vviews(reps@) =~= mv.map_values(|c: Seq<Option<Seq<char>>>| rep_pass(c)));
                Ok(string_of(&splice_texts(&gaps, &reps)))
            },
            Err(m) => Err(TranspileError::TransformError(m)),
        }
    }

    /// `x.push([])` as `x.push(Vec::new())`: a new row of a nested dynamic array.
    pub fn translate_empty_push(&self, source: &str) -> (r: Result<String, TranspileError>)
        ensures
            result_view(r) == rule_empty_push(source@),
    {
        match regex_search(r"\.push\(\[\]\)", source) {
            Ok((gaps, ms)) => {
                let ghost mv = matches_view(ms@);
                let mut reps: Vec<Vec<char>> = Vec::new();
                let mut i: usize = 0;
                while i < ms.len()
                    invariant
                        0 <= i <= ms.len(),
                        mv == matches_view(ms@),
                        reps@.len() == i,
                        forall|k: int| 0 <= k < i ==> #[trigger] reps@[k]@ == rep_empty_push(mv[k]),
                    decreases ms.len() - i,
                {
                    assert(mv[i as int] == groups_view(ms@[i as int]));
                    let c = &ms[i];
                    let mut rep: Vec<char> = Vec::new();
                    push_str(&mut rep, ".push(Vec::new())");
                    assert(rep@ == rep_empty_push(mv[i as int]));
                    reps.push(rep);
                    i = i + 1;
                }
                assert(vviews(reps@) =~= mv.map_values(|c: Seq<Option<Seq<char>>>| rep_empty_push(c)));
                Ok(string_of(&splice_texts(&gaps, &reps)))
            },
            Err(m) => Err(TranspileError::TransformError(m)),
        }
    }

    /// Method calls renamed from camelCase to snake_case.
    pub fn transform_method_calls(&self, source: &str) -> (r: Result<String, TranspileError>)
        ensures
            result_view(r) == rule_method_calls(source@),
    {
        match regex_search(r"\.([a-z][a-zA-Z0-9]*)\s*\(", source) {
            Ok((gaps, ms)) => {
                let ghost mv = matches_view(ms@);
                let mut reps: Vec<Vec<char>> = Vec::new();
                let mut i: usize = 0;
                while i < ms.len()
                    invariant
                        0 <= i <= ms.len(),
                        mv == matches_view(ms@),
                        reps@.len() == i,
                        forall|k: int| 0 <= k < i ==> #[trigger] reps@[k]@ == rep_method_calls(mv[k]),
                    decreases ms.len() - i,
                {
                    assert(mv[i as int] == groups_view(ms@[i as int]));
                    let c = &ms[i];
                    let mut rep: Vec<char> = Vec::new();
                    push_str(&mut rep, ".");
                    push_str(&mut rep, self.to_snake_case(string_of(&group(c, 1)).as_str()).as_str());
                    push_str(&mut rep, "(");
                    assert(rep@ == rep_method_calls(mv[i as int]));
                    reps.push(rep);
                    i = i + 1;
                }
                assert(vviews(reps@) =~= mv.map_values(|c: Seq<Option<Seq<char>>>| rep_method_calls(c)));
                Ok(string_of(&splice_texts(&gaps, &reps)))
            },
            Err(m) => Err(TranspileError::TransformError(m)),
        }
    }

    /// An integer literal assigned to `f32` or `f64` written as a float.
    pub fn transform_float_literals(&self, source: &str) -> (r: Result<String, TranspileError>)
        ensures
            result_view(r) == rule_float_literals(source@),
    {
        match regex_search(r":\s*(f32|f64)\s*=\s*(\d+)\s*;", source) {
            Ok((gaps, ms)) => {
                let ghost mv = matches_view(ms@);
                let mut reps: Vec<Vec<char>> = Vec::new();
                let mut i: usize = 0;
                while i < ms.len()
                    invariant
                        0 <= i <= ms.len(),
                        mv == matches_view(ms@),
                        reps@.len() == i,
                        forall|k: int| 0 <= k < i ==> #[trigger] reps@[k]@ == rep_float_literals(mv[k]),
                    decreases ms.len() - i,
                {
                    assert(mv[i as int] == groups_view(ms@[i as int]));
                    let c = &ms[i];
                    let mut rep: Vec<char> = Vec::new();
                    push_str(&mut rep, ": ");
                    append_vec(&mut rep, &group(c, 1));
                    push_str(&mut rep, " = ");
                    append_vec(&mut rep, &group(c, 2));
                    push_str(&mut rep, ".0;");
                    assert(rep@ == rep_float_literals(mv[i as int]));
                    reps.push(rep);
                    i = i + 1;
                }
                assert(vviews(reps@) =~= mv.map_values(|c: Seq<Option<Seq<char>>>| rep_float_literals(c)));
                Ok(string_of(&splice_texts(&gaps, &reps)))
            },
            Err(m) => Err(TranspileError::TransformError(m)),
        }
    }

    /// `i32[] s = a[0..3];` as `let s: &[i32] = &a[0..3];`.
    pub fn transform_array_slices(&self, source: &str) -> (r: Result<String, TranspileError>)
        ensures
            result_view(r) == rule_array_slices(source@),
    {
        match regex_search(r"\b(i8|i16|i32|i64|u8|u16|u32|u64|f32|f64|bool)\[\]\s+([a-zA-Z_][a-zA-Z0-9_]*)\s*=\s*([a-zA-Z_][a-zA-Z0-9_]*)\[(\d+)\.\.(\d+)\];", source) {
            Ok((gaps, ms)) => {
                let ghost mv = matches_view(ms@);
                let mut reps: Vec<Vec<char>> = Vec::new();
                let mut i: usize = 0;
                while i < ms.len()
                    invariant
                        0 <= i <= ms.len(),
                        mv == matches_view(ms@),
                        reps@.len() == i,
                        forall|k: int| 0 <= k < i ==> #[trigger] reps@[k]@ == rep_array_slices(mv[k]),
                    decreases ms.len() - i,
                {
                    assert(mv[i as int] == groups_view(ms@[i as int]));
                    let c = &ms[i];
                    let mut rep: Vec<char> = Vec::new();
                    push_str(&mut rep, "let ");
                    append_vec(&mut rep, &group(c, 2));
                    push_str(&mut rep, ": &[");
                    append_vec(&mut rep, &group(c, 1));
                    push_str(&mut rep, "] = &");
                    append_vec(&mut rep, &group(c, 3));
                    push_str(&mut rep, "[");
                    append_vec(&mut rep, &group(c, 4));
                    push_str(&mut rep, "..");
                    append_vec(&mut rep, &group(c, 5));
                    push_str(&mut rep, "];");
                    assert(rep@ == rep_array_slices(mv[i as int]));
                    reps.push(rep);
                    i = i + 1;
                }
                assert(vviews(reps@) =~= mv.map_values(|c: Seq<Option<Seq<char>>>| rep_array_slices(c)));
                Ok(string_of(&splice_texts(&gaps, &reps)))
            },
            Err(m) => Err(TranspileError::TransformError(m)),
        }
    }

    /// `if (x) {` as `if x {`, and likewise for `while`.
    pub fn remove_condition_parens(&self, source: &str) -> (r: Result<String, TranspileError>)
        ensures
            result_view(r) == rule_condition_parens(source@),
    {
        match regex_search(r"\b(if|while)\s*\(\s*([^)]+)\s*\)\s*\{", source) {
            Ok((gaps, ms)) => {
                let ghost mv = matches_view(ms@);
                let mut reps: Vec<Vec<char>> = Vec::new();
                let mut i: usize = 0;
                while i < ms.len()
                    invariant
                        0 <= i <= ms.len(),
                        mv == matches_view(ms@),
                        reps@.len() == i,
                        forall|k: int| 0 <= k < i ==> #[trigger] reps@[k]@ == rep_condition_parens(mv[k]),
                    decreases ms.len() - i,
                {
                    assert(mv[i as int] == groups_view(ms@[i as int]));
                    let c = &ms[i];
                    let mut rep: Vec<char> = Vec::new();
                    append_vec(&mut rep, &group(c, 1));
                    push_str(&mut rep, " ");
                    append_vec(&mut rep, &group(c, 2));
                    push_str(&mut rep, " {");
                    assert(rep@ == rep_condition_parens(mv[i as int]));
                    reps.push(rep);
                    i = i + 1;
                }
                assert(vviews(reps@) =~= mv.map_values(|c: Seq<Option<Seq<char>>>| rep_condition_parens(c)));
                Ok(string_of(&splice_texts(&gaps, &reps)))
            },
            Err(m) => Err(TranspileError::TransformError(m)),
        }
    }

    /// A `String` binding initialized by a literal takes `.to_string()`.
    pub fn transform_string_init(&self, source: &str) -> (r: Result<String, TranspileError>)
        ensures
            result_view(r) == rule_string_init(source@),
    {
        match regex_search(r"let mut ([a-zA-Z_][a-zA-Z0-9_]*): String = ([^;]+);", source) {
            Ok((gaps, ms)) => {
                let ghost mv = matches_view(ms@);
                let mut reps: Vec<Vec<char>> = Vec::new();
                let mut i: usize = 0;
                while i < ms.len()
                    invariant
                        0 <= i <= ms.len(),
                        mv == matches_view(ms@),
                        reps@.len() == i,
                        forall|k: int| 0 <= k < i ==> #[trigger] reps@[k]@ == rep_string_init(mv[k]),
                    decreases ms.len() - i,
                {
                    assert(mv[i as int] == groups_view(ms@[i as int]));
                    let c = &ms[i];
                    let mut rep: Vec<char> = Vec::new();
                    let v = group(c, 2);
                    let t = trim_vec(&v);
                    push_str(&mut rep, "let mut ");
                    append_vec(&mut rep, &group(c, 1));
                    push_str(&mut rep, ": String = ");
                    append_vec(&mut rep, &v);
                    if t.len() > 0 && t[0] == '"' {
                        push_str(&mut rep, ".to_string();");
                    } else {
                        push_str(&mut rep, ";");
                    }
                    assert(rep@ == rep_string_init(mv[i as int]));
                    reps.push(rep);
                    i = i + 1;
                }
                assert(vviews(reps@) =~= mv.map_values(|c: Seq<Option<Seq<char>>>| rep_string_init(c)));
                Ok(string_of(&splice_texts(&gaps, &reps)))
            },
            Err(m) => Err(TranspileError::TransformError(m)),
        }
    }

    /// `x.f = {a, b};` as `x.f = [a, b];` (one level of braces).
    pub fn transform_array_literal_assign(&self, source: &str) -> (r: Result<String, TranspileError>)
        ensures
            result_view(r) == rule_array_literal_assign(source@),
    {
        match regex_search(r"((?:\b[a-zA-Z_]\w*)+(?:\[[^\[\]]+\]|\.\w+\([^()]*\))*)\s*=\s*\{([^{}]+)\}\s*;", source) {
            Ok((gaps, ms)) => {
                let ghost mv = matches_view(ms@);
                let mut reps: Vec<Vec<char>> = Vec::new();
                let mut i: usize = 0;
                while i < ms.len()
                    invariant
                        0 <= i <= ms.len(),
                        mv == matches_view(ms@),
                        reps@.len() == i,
                        forall|k: int| 0 <= k < i ==> #[trigger] reps@[k]@ == rep_array_literal_assign(mv[k]),
                    decreases ms.len() - i,
                {
                    assert(mv[i as int] == groups_view(ms@[i as int]));
                    let c = &ms[i];
                    let mut rep: Vec<char> = Vec::new();
                    append_vec(&mut rep, &group(c, 1));
                    push_str(&mut rep, " = [");
                    append_vec(&mut rep, &trim_vec(&group(c, 2)));
                    push_str(&mut rep, "];");
                    assert(rep@ == rep_array_literal_assign(mv[i as int]));
                    reps.push(rep);
                    i = i + 1;
                }
                assert(vviews(reps@) =~= mv.map_values(|c: Seq<Option<Seq<char>>>| rep_array_literal_assign(c)));
                Ok(string_of(&splice_texts(&gaps, &reps)))
            },
            Err(m) => Err(TranspileError::TransformError(m)),
        }
    }

    /// `i++;` as `i += 1;` and `i--;` as `i -= 1;`.
    pub fn transform_increment_decrement(&self, source: &str) -> (r: Result<String, TranspileError>)
        ensures
            result_view(r) == rule_increment(source@),
    {
        match regex_search(r"\b([a-zA-Z_][a-zA-Z0-9_]*)\s*(\+\+|--)\s*;", source) {
            Ok((gaps, ms)) => {
                let ghost mv = matches_view(ms@);
                let mut reps: Vec<Vec<char>> = Vec::new();
                let mut i: usize = 0;
                while i < ms.len()
                    invariant
                        0 <= i <= ms.len(),
                        mv == matches_view(ms@),
                        reps@.len() == i,
                        forall|k: int| 0 <= k < i ==> #[trigger] reps@[k]@ == rep_increment(mv[k]),
                    decreases ms.len() - i,
                {
                    assert(mv[i as int] == groups_view(ms@[i as int]));
                    let c = &ms[i];
                    let mut rep: Vec<char> = Vec::new();
                    append_vec(&mut rep, &group(c, 1));
                    if same_text(&group(c, 2), "++") {
                        push_str(&mut rep, " += 1;");
                    } else {
                        push_str(&mut rep, " -= 1;");
                    }
                    assert(rep@ == rep_increment(mv[i as int]));
                    reps.push(rep);
                    i = i + 1;
                }
                assert(vviews(reps@) =~= mv.map_values(|c: Seq<Option<Seq<char>>>| rep_increment(c)));
                Ok(string_of(&splice_texts(&gaps, &reps)))
            },
            Err(m) => Err(TranspileError::TransformError(m)),
        }
    }

    /// Arrays cannot be `const`.
    pub fn reject_const_array(source: &str) -> (r: Result<(), TranspileError>)
        ensures
            check_view(r) == reject_rule(r"\bconst\s+(?:i8|i16|i32|i64|u8|u16|u32|u64|f32|f64|bool)(?:\s*\[|\s+[a-zA-Z_][a-zA-Z0-9_]*\s*\[)"@, source@, const_array_msg()),
    {
        match regex_search(r"\bconst\s+(?:i8|i16|i32|i64|u8|u16|u32|u64|f32|f64|bool)(?:\s*\[|\s+[a-zA-Z_][a-zA-Z0-9_]*\s*\[)", source) {
            Ok((_g, ms)) => if ms.len() > 0 {
                Err(TranspileError::TransformError(String::from_str("syntax error: arrays are mutable by default and do not support `const` (r6/r18). Remove `const` from the array declaration, e.g. `i32[2] a = {1, 2};`. For read-only access to the data, use a slice: `i32[] s = arr[0..2];`")))
            } else {
                Ok(())
            },
            Err(m) => Err(TranspileError::TransformError(m)),
        }
    }

    /// A `const` needs an initializer.
    pub fn reject_const_no_init(source: &str) -> (r: Result<(), TranspileError>)
        ensures
            check_view(r) == reject_rule(r"\bconst\s+(?:i8|i16|i32|i64|u8|u16|u32|u64|f32|f64|bool|char|String)\s+[a-zA-Z_][a-zA-Z0-9_]*(?:\s*,\s*[a-zA-Z_][a-zA-Z0-9_]*)*\s*;"@, source@, const_no_init_msg()),
    {
        match regex_search(r"\bconst\s+(?:i8|i16|i32|i64|u8|u16|u32|u64|f32|f64|bool|char|String)\s+[a-zA-Z_][a-zA-Z0-9_]*(?:\s*,\s*[a-zA-Z_][a-zA-Z0-9_]*)*\s*;", source) {
            Ok((_g, ms)) => if ms.len() > 0 {
                Err(TranspileError::TransformError(String::from_str("syntax error: `const` declarations require an initializer (a constant must have a value). For delayed initialization use plain variables: `i32 a;` or `i32 a, b, c;`")))
            } else {
                Ok(())
            },
            Err(m) => Err(TranspileError::TransformError(m)),
        }
    }

    /// The names of `const` integer declarations with a literal value:
    /// the constants that may size arrays.
    pub fn scan_const_dim_names(source: &str) -> (r: Vec<String>)
        ensures
            strings(r@) == const_dim_names(source@),
    {
        match regex_search(r"\bconst\s+(?:i8|i16|i32|i64|u8|u16|u32|u64)\s+([a-zA-Z_][a-zA-Z0-9_]*)\s*=\s*(\d+)\s*;", source) {
            Ok((_g, ms)) => {
                let ghost m = matches_view(ms@);
                let mut r: Vec<String> = Vec::new();
                let mut i: usize = 0;
                assert(strings(r@) =~= Seq::<Seq<char>>::empty());
                while i < ms.len()
                    invariant
                        0 <= i <= ms.len(),
                        m == matches_view(ms@),
                        strings(r@) == distinct_firsts(m, i as int),
                    decreases ms.len() - i,
                {
                    assert(m[i as int] == groups_view(ms@[i as int]));
                    let n = group(&ms[i], 1);
                    if !has_text(&r, &n) {
                        let ghost r0 = strings(r@);
                        r.push(string_of(&n));
                        assert(strings(r@) =~= r0.push(n@));
                    }
                    i = i + 1;
                }
                r
            },
            Err(_) => Vec::new(),
        }
    }

    /// Array dimensions must be integer literals or constants among
    /// `const_names`.
    pub fn check_array_dimensions(source: &str, const_names: &Vec<String>) -> (r: Result<(), TranspileError>)
        ensures
            check_view(r) == check_dims(source@, strings(const_names@)),
    {
        let outer = regex_search(r"\b(?:i8|i16|i32|i64|u8|u16|u32|u64|f32|f64|bool)((?:\[(?:\d+|[a-zA-Z_][a-zA-Z0-9_]*)\])+)\s+[a-zA-Z_][a-zA-Z0-9_]*\s*[;=]", source);
        let (g0, ms) = match outer {
            Ok(x) => x,
            Err(m) => {
                return Err(TranspileError::TransformError(m));
            },
        };
        match regex_search(r"\[([a-zA-Z_][a-zA-Z0-9_]*)\]", "") {
            Ok(_) => {},
            Err(m) => {
                return Err(TranspileError::TransformError(m));
            },
        }
        let ghost m = matches_view(ms@);
        let ghost gv = strings(g0@);
        let ghost names = strings(const_names@);
        let mut i: usize = 0;
        while i < ms.len()
            invariant
                0 <= i <= ms.len(),
                m == matches_view(ms@),
                names == strings(const_names@),
                bad_dim(m, names, 0) == bad_dim(m, names, i as int),
                regex_scan(r"\b(?:i8|i16|i32|i64|u8|u16|u32|u64|f32|f64|bool)((?:\[(?:\d+|[a-zA-Z_][a-zA-Z0-9_]*)\])+)\s+[a-zA-Z_][a-zA-Z0-9_]*\s*[;=]"@, source@) == Some((gv, m)),
                regex_valid(name_dim_pat()),
            decreases ms.len() - i,
        {
            assert(m[i as int] == groups_view(ms@[i as int]));
            let dims = string_of(&group(&ms[i], 1));
            match regex_search(r"\[([a-zA-Z_][a-zA-Z0-9_]*)\]", dims.as_str()) {
                Ok((g2, ds)) => {
                    let ghost dv = matches_view(ds@);
                    let mut j: usize = 0;
                    while j < ds.len()
                        invariant
                            0 <= j <= ds.len(),
                            dv == matches_view(ds@),
                            names == strings(const_names@),
                            i < ms@.len(),
                            m == matches_view(ms@),
                            bad_dim(m, names, 0) == bad_dim(m, names, i as int),
                            regex_scan(name_dim_pat(), grp(m[i as int], 1)) == Some((strings(g2@), dv)),
                            regex_scan(r"\b(?:i8|i16|i32|i64|u8|u16|u32|u64|f32|f64|bool)((?:\[(?:\d+|[a-zA-Z_][a-zA-Z0-9_]*)\])+)\s+[a-zA-Z_][a-zA-Z0-9_]*\s*[;=]"@, source@) == Some((gv, m)),
                            regex_valid(name_dim_pat()),
                            bad_dim_in(dv, names, 0) == bad_dim_in(dv, names, j as int),
                        decreases ds.len() - j,
                    {
                        assert(dv[j as int] == groups_view(ds@[j as int]));
                        let d = group(&ds[j], 1);
                        if !parses_usize_vec(&d) && !has_text(const_names, &d) {
                            let mut msg: Vec<char> = Vec::new();
                            push_str(&mut msg, "syntax error: array dimension `");
                            append_vec(&mut msg, &d);
                            push_str(&mut msg, "` must be an integer literal or a const (declare with `const i32 ");
                            append_vec(&mut msg, &d);
                            push_str(&mut msg, " = <n>;` \u{2014} runtime sizes belong to dynamic arrays `i32[][]`)");
                            assert(bad_dim_in(dv, names, j as int) == Some(d@));
                            assert(bad_dim(m, names, i as int) == Some(d@));
                            assert(msg@ == bad_dim_msg(d@));
                            return Err(TranspileError::TransformError(string_of(&msg)));
                        }
                        j = j + 1;
                    }
                },
                Err(_) => {},
            }
            i = i + 1;
        }
        Ok(())
    }

    /// `i32[][] v;` as `let mut v: Vec<Vec<i32>> = Vec::new();`, one `Vec`
    /// per `[]`.
    pub fn transform_dynamic_array_decl(&self, source: &str) -> (r: Result<String, TranspileError>)
        ensures
            result_view(r) == rule_dynamic_array(source@),
    {
        let (gaps, ms) = match regex_search(r"\b(i8|i16|i32|i64|u8|u16|u32|u64|f32|f64|bool)((?:\[\])+)\s+([a-zA-Z_][a-zA-Z0-9_]*)\s*;", source) {
            Ok(x) => x,
            Err(m) => {
                return Err(TranspileError::TransformError(m));
            },
        };
        match regex_search(r"\[\]", "") {
            Ok(_) => {},
            Err(m) => {
                return Err(TranspileError::TransformError(m));
            },
        }
        let ghost mv = matches_view(ms@);
        let mut reps: Vec<Vec<char>> = Vec::new();
        let mut i: usize = 0;
        while i < ms.len()
            invariant
                0 <= i <= ms.len(),
                mv == matches_view(ms@),
                reps@.len() == i,
                forall|k: int| 0 <= k < i ==> #[trigger] reps@[k]@ == rep_dynamic_array(mv[k]),
            decreases ms.len() - i,
        {
            assert(mv[i as int] == groups_view(ms@[i as int]));
            let c = &ms[i];
            let dims = string_of(&group(c, 2));
            let n: usize = match regex_search(r"\[\]", dims.as_str()) {
                Ok((_g2, m2)) => m2.len(),
                Err(_) => 0,
            };
            let mut ty = group(c, 1);
            let mut k: usize = 0;
            while k < n
                invariant
                    0 <= k <= n,
                    ty@ == vec_nest(grp(mv[i as int], 1), k as nat),
                decreases n - k,
            {
                let mut t2: Vec<char> = Vec::new();
                push_str(&mut t2, "Vec<");
                append_vec(&mut t2, &ty);
                push_str(&mut t2, ">");
                ty = t2;
                k = k + 1;
            }
            let mut rep: Vec<char> = Vec::new();
            push_str(&mut rep, "let mut ");
            append_vec(&mut rep, &group(c, 3));
            push_str(&mut rep, ": ");
            append_vec(&mut rep, &ty);
            push_str(&mut rep, " = Vec::new();");
            reps.push(rep);
            i = i + 1;
        }
        assert(vviews(reps@) =~= mv.map_values(|c: Seq<Option<Seq<char>>>| rep_dynamic_array(c)));
        Ok(string_of(&splice_texts(&gaps, &reps)))
    }

    /// Function headers `[public] Type name(i32 a) {` in Rust:
    /// `[pub ]fn name(a: i32) -> Type {` (no return type for `void`).
    pub fn transform_function_definitions(&self, source: &str) -> (r: Result<String, TranspileError>)
        ensures
            result_view(r) == rule_functions(source@),
    {
        match regex_search(r"(?m)^\s*((?:pub|public)\s+)?\b(void|i8|i16|i32|i64|u8|u16|u32|u64|f32|f64|bool|char|String)\s+([a-zA-Z_][a-zA-Z0-9_]*)\s*\(([^)]*)\)\s*\{", source) {
            Ok((gaps, ms)) => {
                let ghost mv = matches_view(ms@);
                let mut reps: Vec<Vec<char>> = Vec::new();
                let mut i: usize = 0;
                while i < ms.len()
                    invariant
                        0 <= i <= ms.len(),
                        mv == matches_view(ms@),
                        reps@.len() == i,
                        forall|k: int| 0 <= k < i ==> #[trigger] reps@[k]@ == rep_function(mv[k]),
                    decreases ms.len() - i,
                {
                    assert(mv[i as int] == groups_view(ms@[i as int]));
                    let c = &ms[i];
                    let mut rep: Vec<char> = Vec::new();
                    if has_group(c, 1) {
                        push_str(&mut rep, "pub ");
                    }
                    push_str(&mut rep, "fn ");
                    append_vec(&mut rep, &group(c, 3));
                    push_str(&mut rep, "(");
                    append_vec(&mut rep, &params_vec(&group(c, 4)));
                    if same_text(&group(c, 2), "void") {
                        push_str(&mut rep, ") {");
                    } else {
                        push_str(&mut rep, ") -> ");
                        append_vec(&mut rep, &group(c, 2));
                        push_str(&mut rep, " {");
                    }
                    reps.push(rep);
                    i = i + 1;
                }
                assert(vviews(reps@) =~= mv.map_values(|c: Seq<Option<Seq<char>>>| rep_function(c)));
                Ok(string_of(&splice_texts(&gaps, &reps)))
            },
            Err(m) => Err(TranspileError::TransformError(m)),
        }
    }

    /// The trait body for interface body `body`: one signature per method
    /// declaration, each taking `&self`.
    pub fn transform_interface_methods(&self, body: &str) -> (r: String)
        ensures
            r@ == iface_body(body@),
    {
        match regex_search(r"(?m)^\s*(public\s+)?(\w+)\s+(\w+)\s*\(([^)]*)\)\s*;", body) {
            Ok((_g, ms)) => {
                if ms.len() == 0 {
                    return String::new();
                }
                let ghost mv = matches_view(ms@);
                let mut sigs: Vec<Vec<char>> = Vec::new();
                let mut i: usize = 0;
                while i < ms.len()
                    invariant
                        0 <= i <= ms.len(),
                        mv == matches_view(ms@),
                        sigs@.len() == i,
                        forall|k: int| 0 <= k < i ==> #[trigger] sigs@[k]@ == iface_sig(mv[k]),
                    decreases ms.len() - i,
                {
                    assert(mv[i as int] == groups_view(ms@[i as int]));
                    let c = &ms[i];
                    let mut sig: Vec<char> = Vec::new();
                    push_str(&mut sig, "\n    fn ");
                    push_str(&mut sig, self.to_snake_case(string_of(&group(c, 3)).as_str()).as_str());
                    push_str(&mut sig, "(&self");
                    push_str(&mut sig, self.transform_method_params(string_of(&group(c, 4)).as_str()).as_str());
                    if same_text(&group(c, 2), "void") {
                        push_str(&mut sig, ");");
                    } else {
                        push_str(&mut sig, ") -> ");
                        append_vec(&mut sig, &group(c, 2));
                        push_str(&mut sig, ";");
                    }
                    sigs.push(sig);
                    i = i + 1;
                }
                assert(vviews(sigs@) =~= mv.map_values(|c: Seq<Option<Seq<char>>>| iface_sig(c)));
                let mut out: Vec<char> = Vec::new();
                push_str(&mut out, "\n    ");
                append_vec(&mut out, &join_vec(&sigs, "\n    "));
                push_str(&mut out, "\n");
                string_of(&out)
            },
            Err(_) => String::new(),
        }
    }

    /// Interfaces as Rust traits: `interface Shape { public f64 area(); }`
    /// becomes `trait Shape { fn area(&self) -> f64; }`.
    pub fn transform_interface_definitions(&self, source: &str) -> (r: Result<String, TranspileError>)
        ensures
            result_view(r) == rule_interfaces(source@),
    {
        match regex_search(r"(?m)^\s*interface\s+([a-zA-Z_][a-zA-Z0-9_]*)\s*\{([^}]+)\}", source) {
            Ok((gaps, ms)) => {
                let ghost mv = matches_view(ms@);
                let mut reps: Vec<Vec<char>> = Vec::new();
                let mut i: usize = 0;
                while i < ms.len()
                    invariant
                        0 <= i <= ms.len(),
                        mv == matches_view(ms@),
                        reps@.len() == i,
                        forall|k: int| 0 <= k < i ==> #[trigger] reps@[k]@ == rep_interface(mv[k]),
                    decreases ms.len() - i,
                {
                    assert(mv[i as int] == groups_view(ms@[i as int]));
                    let c = &ms[i];
                    let mut rep: Vec<char> = Vec::new();
                    push_str(&mut rep, "trait ");
                    append_vec(&mut rep, &group(c, 1));
                    push_str(&mut rep, " {");
                    push_str(&mut rep, self.transform_interface_methods(string_of(&group(c, 2)).as_str()).as_str());
                    push_str(&mut rep, "}\n");
                    reps.push(rep);
                    i = i + 1;
                }
                assert(vviews(reps@) =~= mv.map_values(|c: Seq<Option<Seq<char>>>| rep_interface(c)));
                Ok(string_of(&splice_texts(&gaps, &reps)))
            },
            Err(m) => Err(TranspileError::TransformError(m)),
        }
    }

    /// `map` with the members of interface `ifname`'s trait in `source`.
    fn add_iface_members(&self, source: &str, map: &mut StrMap<String>, ifname: &Vec<char>) -> (r: Result<(), String>)
        ensures
            match iface_members(source@, path_map_view(old(map).entries@), ifname@) {
                Ok(m2) => r is Ok && path_map_view(final(map).entries@) == m2,
                Err(e) => r matches Err(x) && x@ == e,
            },
    {
        let mut pat: Vec<char> = Vec::new();
        push_str(&mut pat, r"(?s)trait\s+");
        append_vec(&mut pat, ifname);
        push_str(&mut pat, r"\s*\{([^}]*)\}");
        let (_g, ms) = match regex_search(string_of(&pat).as_str(), source) {
            Ok(x) => x,
            Err(m) => {
                return Err(m);
            },
        };
        if ms.len() == 0 {
            return Ok(());
        }
        assert(matches_view(ms@)[0] == groups_view(ms@[0]));
        let members = string_of(&group(&ms[0], 1));
        let (_g2, m2) = match regex_search(r"fn\s+([a-zA-Z_][a-zA-Z0-9_]*)\s*\(", members.as_str()) {
            Ok(x) => x,
            Err(m) => {
                return Err(m);
            },
        };
        let ghost mv = matches_view(m2@);
        let ghost m0 = path_map_view(map.entries@);
        let mut k: usize = 0;
        while k < m2.len()
            invariant
                0 <= k <= m2.len(),
                mv == matches_view(m2@),
                path_map_view(map.entries@) == put_names(m0, mv, ifname@, k as int),
            decreases m2.len() - k,
        {
            assert(mv[k as int] == groups_view(m2@[k as int]));
            put_text(map, string_of(&group(&m2[k], 1)), string_of(ifname));
            k = k + 1;
        }
        Ok(())
    }

    /// The check of one class (groups `cc`: name, interfaces, body).
    fn check_class_visibility(&self, source: &str, cc: &Vec<Option<String>>) -> (r: Result<(), String>)
        ensures
            match class_vis(source@, groups_view(*cc)) {
                Ok(()) => r is Ok,
                Err(e) => r matches Err(x) && x@ == e,
            },
    {
        let ghost c = groups_view(*cc);
        let pieces = split_vec(&group(cc, 2), ',');
        let ghost ifs = split_on(grp(c, 2), ',').map_values(|p: Seq<char>| trim(p));
        let mut map: StrMap<String> = StrMap::new();
        assert(path_map_view(map.entries@) =~= Seq::<(Seq<char>, Seq<char>)>::empty());
        let mut i: usize = 0;
        while i < pieces.len()
            invariant
                0 <= i <= pieces.len(),
                c == groups_view(*cc),
                vviews(pieces@) == split_on(grp(c, 2), ','),
                ifs == split_on(grp(c, 2), ',').map_values(|p: Seq<char>| trim(p)),
                iface_member_map(source@, ifs, i as int) == Ok::<Seq<(Seq<char>, Seq<char>)>, Seq<char>>(path_map_view(map.entries@)),
            decreases pieces.len() - i,
        {
            assert(vviews(pieces@)[i as int] == pieces@[i as int]@);
            let ifname = trim_vec(&pieces[i]);
            assert(ifs[i as int] == ifname@);
            let ghost before = path_map_view(map.entries@);
            match self.add_iface_members(source, &mut map, &ifname) {
                Ok(()) => {},
                Err(e) => {
                    proof {
                        assert(iface_member_map(source@, ifs, i + 1) == iface_members(source@, before, ifs[i as int]));
                        assert(ifs.len() == pieces@.len());
                        lemma_member_map_err(source@, ifs, i + 1, ifs.len() as int);
                    }
                    return Err(e);
                },
            }
            i = i + 1;
        }
        assert(ifs.len() == pieces@.len());
        let (g, ms) = match regex_search(r"(?s)(public\s+)?(\w+)\s+([a-zA-Z_][a-zA-Z0-9_]*)\s*\([^)]*\)\s*\{[^{}]*\}", string_of(&group(cc, 3)).as_str()) {
            Ok(x) => x,
            Err(_) => {
                return Ok(());
            },
        };
        let ghost mv = matches_view(ms@);
        let ghost mp = path_map_view(map.entries@);
        let ghost gv = strings(g@);
        let mut j: usize = 0;
        while j < ms.len()
            invariant
                0 <= j <= ms.len(),
                mv == matches_view(ms@),
                mp == path_map_view(map.entries@),
                c == groups_view(*cc),
                ifs == split_on(grp(c, 2), ',').map_values(|p: Seq<char>| trim(p)),
                iface_member_map(source@, ifs, ifs.len() as int) == Ok::<Seq<(Seq<char>, Seq<char>)>, Seq<char>>(mp),
                regex_scan(class_method_pat(), grp(c, 3)) == Some((gv, mv)),
                private_impl(mv, mp, 0) == private_impl(mv, mp, j as int),
            decreases ms.len() - j,
        {
            assert(mv[j as int] == groups_view(ms@[j as int]));
            let mc = &ms[j];
            let rn = self.to_snake_case(string_of(&group(mc, 3)).as_str());
            let mut hit: Option<usize> = None;
            let mut q: usize = 0;
            while q < map.entries.len()
                invariant
                    0 <= q <= map.entries.len(),
                    mp == path_map_view(map.entries@),
                    hit is None ==> forall|t: int| 0 <= t < q ==> map.entries@[t].0@ != rn@,
                    hit matches Some(h) ==> h < map.entries.len() && first_key(mp, rn@) == Some(h as int),
                decreases map.entries.len() - q,
            {
                if hit.is_none() && str_eq(map.entries[q].0.as_str(), rn.as_str()) {
                    proof {
                        lemma_first_key(map.entries@, rn@);
                        crate::table::lemma_index_in(map.entries@, rn@);
                        assert forall|t: int| 0 <= t < q implies map.entries@[t].0@ != rn@ by {}
                        if index_in(map.entries@, rn@) != Some(q as int) {
                            match index_in(map.entries@, rn@) {
                                Some(x) => {
                                    if x < q {
                                        assert(map.entries@[x].0@ != rn@);
                                    } else {
                                        assert(map.entries@[q as int].0@ == rn@);
                                    }
                                },
                                None => {},
                            }
                        }
                    }
                    hit = Some(q);
                }
                q = q + 1;
            }
            proof {
                if hit is None {
                    lemma_first_key(map.entries@, rn@);
                    crate::table::lemma_index_in(map.entries@, rn@);
                    match index_in(map.entries@, rn@) {
                        Some(x) => {
                            assert(map.entries@[x].0@ != rn@);
                        },
                        None => {},
                    }
                }
            }
            match hit {
                Some(h) => {
                    if !has_group(mc, 1) {
                        let mut msg: Vec<char> = Vec::new();
                        push_str(&mut msg, "syntax error: interface method `");
                        append_vec(&mut msg, &group(mc, 3));
                        push_str(&mut msg, "` must be declared `public` \u{2014} private methods cannot implement the public interface `");
                        push_str(&mut msg, map.entries[h].1.as_str());
                        push_str(&mut msg, "` (r26/r23). Fix: `public ");
                        append_vec(&mut msg, &group(mc, 2));
                        push_str(&mut msg, " ");
                        append_vec(&mut msg, &group(mc, 3));
                        push_str(&mut msg, "(...);`");
                        assert(mp[h as int].1 == map.entries@[h as int].1@);
                        return Err(string_of(&msg));
                    }
                },
                None => {},
            }
            j = j + 1;
        }
        Ok(())
    }

    /// Methods implementing an interface must be public: a private one is a
    /// syntax error naming the method and the interface.
    pub fn check_interface_impl_visibility(&self, source: &str) -> (r: Result<(), TranspileError>)
        ensures
            check_view(r) == rule_impl_visibility(source@),
    {
        let (g0, ms) = match regex_search(r"(?m)^\s*class\s+([a-zA-Z_][a-zA-Z0-9_]*)\s*(?:extends\s+\w+)?\s*implements\s+([a-zA-Z_][a-zA-Z0-9_,\s]+)\s*\{([\s\S]*?)^\}", source) {
            Ok(x) => x,
            Err(m) => {
                return Err(TranspileError::TransformError(m));
            },
        };
        match regex_search(r"(?s)(public\s+)?(\w+)\s+([a-zA-Z_][a-zA-Z0-9_]*)\s*\([^)]*\)\s*\{[^{}]*\}", "") {
            Ok(_) => {},
            Err(m) => {
                return Err(TranspileError::TransformError(m));
            },
        }
        let ghost mv = matches_view(ms@);
        let ghost gv = strings(g0@);
        let mut i: usize = 0;
        while i < ms.len()
            invariant
                0 <= i <= ms.len(),
                mv == matches_view(ms@),
                regex_scan(impl_class_pat(), source@) == Some((gv, mv)),
                regex_valid(class_method_pat()),
                classes_vis(source@, mv, 0) == classes_vis(source@, mv, i as int),
            decreases ms.len() - i,
        {
            assert(mv[i as int] == groups_view(ms@[i as int]));
            match self.check_class_visibility(source, &ms[i]) {
                Ok(()) => {},
                Err(e) => {
                    return Err(TranspileError::TransformError(e));
                },
            }
            i = i + 1;
        }
        Ok(())
    }
}


/// Every match of `pat` in `s` replaced by its group 1 between `before`
/// and `after`; the pattern's error when it is refused.
pub open spec fn mark_rule(pat: Seq<char>, s: Seq<char>, before: Seq<char>, after: Seq<char>) -> Result<Seq<char>, TranspileErrorView> {
    match regex_scan(pat, s) {
        Some((g, m)) => Ok(splice(g, m.map_values(|c: Seq<Option<Seq<char>>>| before + grp(c, 1) + after))),
        None => Err(TranspileErrorView::TransformError(regex_error(pat))),
    }
}

/// Every match of `pat` in `s` replaced by its group 1 followed by `suffix`;
/// `s` itself when `pat` is refused.
pub open spec fn replace_g1(pat: Seq<char>, s: Seq<char>, suffix: Seq<char>) -> Seq<char> {
    match regex_scan(pat, s) {
        Some((g, m)) => splice(g, m.map_values(|c: Seq<Option<Seq<char>>>| grp(c, 1) + suffix)),
        None => s,
    }
}

/// Group 1 of the first match of `pat` in `s`, or `d`.
pub open spec fn first_g1_or(pat: Seq<char>, s: Seq<char>, d: Seq<char>) -> Seq<char> {
    match regex_scan(pat, s) {
        Some((g, m)) => if m.len() > 0 && has_grp(m[0], 1) {
            grp(m[0], 1)
        } else {
            d
        },
        None => d,
    }
}

/// A loop condition `i < a.len()` with the loop variable taken `as usize`
/// (also `i < m[k].len()`, and `a.len() > i` the other way round); any
/// other condition trimmed and kept.
pub open spec fn len_cmp(cond: Seq<char>) -> Seq<char> {
    let t = trim(cond);
    match regex_scan(r"^([a-zA-Z_]\w*)\s*(<=|>=|<|>)\s*([a-zA-Z_]\w*(?:\[[^\[\]]+\])*)\.len\(\)$"@, t) {
        None => t,
        Some((g, m)) => if m.len() > 0 {
            "("@ + grp(m[0], 1) + " as usize) "@ + grp(m[0], 2) + " "@ + grp(m[0], 3) + ".len()"@
        } else {
            match regex_scan(r"^([a-zA-Z_]\w*)\.len\(\)\s*(<=|>=|<|>)\s*([a-zA-Z_]\w*)$"@, t) {
                None => t,
                Some((g2, m2)) => if m2.len() > 0 {
                    grp(m2[0], 1) + ".len() "@ + grp(m2[0], 2) + " ("@ + grp(m2[0], 3) + " as usize)"@
                } else {
                    t
                },
            }
        },
    }
}

/// The marker put before a prefix `++`/`--`.
pub open spec fn pre_mark() -> Seq<char> {
    "###HUST_PREFIX###"@
}

/// The marker put before a postfix `++`/`--`.
pub open spec fn post_mark() -> Seq<char> {
    "###HUST_POSTFIX###"@
}

/// The marker closing either.
pub open spec fn end_mark() -> Seq<char> {
    "###HUST_END###"@
}

/// The variable a marked `++`/`--` update changes, or `d`.
pub open spec fn update_var(u: Seq<char>, d: Seq<char>) -> Seq<char> {
    if contains(u, pre_mark()) {
        first_g1_or(r"###HUST_PREFIX###\+\+([a-zA-Z_][a-zA-Z0-9_]*)###HUST_END###"@, u, d)
    } else if contains(u, post_mark()) {
        first_g1_or(r"###HUST_POSTFIX###([a-zA-Z_][a-zA-Z0-9_]*)\+\+###HUST_END###"@, u, d)
    } else {
        d
    }
}

/// `s` with the three markers removed.
pub open spec fn unmark(s: Seq<char>) -> Seq<char> {
    remove_all(remove_all(remove_all(s, pre_mark()), post_mark()), end_mark())
}

/// The statement ending each round of the `while` made from a `for` whose
/// update clause is `u` and loop variable `d`: a braced block (markers
/// removed, `x++`/`x--` as `x += 1`/`x -= 1`) on a line of its own; a
/// marked `++`/`--` as an assignment; anything else trimmed and kept.
pub open spec fn update_stmt(u: Seq<char>, d: Seq<char>) -> Seq<char> {
    let t = trim(u);
    if t.len() > 0 && t[0] == '{' && t[t.len() - 1] == '}' {
        let b = unmark(trim(t.subrange(1, t.len() - 1)));
        replace_g1(r"\b([a-zA-Z_][a-zA-Z0-9_]*)\s*--"@, replace_g1(r"\b([a-zA-Z_][a-zA-Z0-9_]*)\s*\+\+"@, b, " += 1"@), " -= 1"@) + "\n"@
    } else if contains(u, pre_mark()) || contains(u, post_mark()) {
        let v = update_var(u, d);
        if contains(u, "++"@) {
            v + " = "@ + v + " + 1;"@
        } else {
            v + " = "@ + v + " - 1;"@
        }
    } else {
        t
    }
}

/// The header of a `for` with a typed loop variable, or without one.
pub open spec fn for_pat(typed: bool) -> Seq<char> {
    if typed {
        r"for\s*\(\s*(i8|i16|i32|i64|u8|u16|u32|u64)\s+([a-zA-Z_]\w*)\s*=\s*([^;]+)\s*;\s*([^;]+)\s*;\s*([^\)]+)\)"@
    } else {
        r"for\s*\(\s*([a-zA-Z_]\w*)\s*=\s*([^;]+)\s*;\s*([^;]+)\s*;\s*([^\)]+)\)"@
    }
}

/// The `while` loop standing for a `for` with header groups `c` and body
/// `body`; a typed loop variable is declared with `let mut`.
pub open spec fn while_text(c: Seq<Option<Seq<char>>>, body: Seq<char>, typed: bool) -> Seq<char> {
    if typed {
        "let mut "@ + grp(c, 2) + ": "@ + grp(c, 1) + " = "@ + trim(grp(c, 3)) + "; while "@ + len_cmp(trim(grp(c, 4)))
            + " {"@ + body + "\n"@ + update_stmt(trim(grp(c, 5)), grp(c, 2)) + "}"@
    } else {
        grp(c, 1) + " = "@ + trim(grp(c, 2)) + "; while "@ + len_cmp(trim(grp(c, 3))) + " {"@ + body + "\n"@
            + update_stmt(trim(grp(c, 4)), grp(c, 1)) + "}"@
    }
}

/// The first `for` of `s` (of the kind `typed` says) as a `while`; nothing
/// when there is none or its body is not closed.
pub open spec fn for_step(s: Seq<char>, typed: bool) -> Option<Seq<char>> {
    match regex_scan(for_pat(typed), s) {
        None => None,
        Some((g, m)) => if m.len() == 0 {
            None
        } else {
            let hs = g[0].len() as int;
            let he = hs + grp(m[0], 0).len();
            match for_body(s, he) {
                None => None,
                Some((body, e)) => Some(s.subrange(0, hs) + while_text(m[0], body, typed) + s.subrange(e, s.len() as int)),
            }
        },
    }
}

/// `for_step` repeated until it finds nothing, at most `fuel` times.
pub open spec fn for_pass(s: Seq<char>, typed: bool, fuel: nat) -> Seq<char>
    decreases fuel,
{
    if fuel == 0 {
        s
    } else {
        match for_step(s, typed) {
            None => s,
            Some(t) => for_pass(t, typed, (fuel - 1) as nat),
        }
    }
}

/// The message when a marker survives.
pub open spec fn marker_msg() -> Seq<char> {
    "Internal error: Hust markers not properly removed"@
}

/// C-style `for` loops as `while` loops.
pub open spec fn rule_for_loops(src: Seq<char>) -> Result<Seq<char>, TranspileErrorView> {
    if !regex_valid(for_pat(true)) {
        Err(TranspileErrorView::TransformError(regex_error(for_pat(true))))
    } else {
        match mark_rule(r"(\b[a-zA-Z_][a-zA-Z0-9_]*)\+\+"@, src, post_mark(), "++###HUST_END###"@) {
            Err(e) => Err(e),
            Ok(s1) => match mark_rule(r"(\b[a-zA-Z_][a-zA-Z0-9_]*)\-\-"@, s1, post_mark(), "--###HUST_END###"@) {
                Err(e) => Err(e),
                Ok(s2) => match mark_rule(r"\+\+\s*([a-zA-Z_][a-zA-Z0-9_]*)"@, s2, "###HUST_PREFIX###++"@, end_mark()) {
                    Err(e) => Err(e),
                    Ok(s3) => match mark_rule(r"\-\-\s*([a-zA-Z_][a-zA-Z0-9_]*)"@, s3, "###HUST_PREFIX###--"@, end_mark()) {
                        Err(e) => Err(e),
                        Ok(s4) => {
                            let s5 = for_pass(s4, true, s4.len());
                            if !regex_valid(for_pat(false)) {
                                Err(TranspileErrorView::TransformError(regex_error(for_pat(false))))
                            } else {
                                let s6 = unmark(for_pass(s5, false, s5.len()));
                                if contains(s6, "###HUST_"@) {
                                    Err(TranspileErrorView::TransformError(marker_msg()))
                                } else {
                                    Ok(s6)
                                }
                            }
                        },
                    },
                },
            },
        }
    }
}

/// Every match of `pat` in `s` replaced by its group 1 between `before` and
/// `after`.
fn mark_pass(pat: &str, s: &str, before: &str, after: &str) -> (r: Result<String, TranspileError>)
    ensures
        result_view(r) == mark_rule(pat@, s@, before@, after@),
{
    match regex_search(pat, s) {
        Ok((gaps, ms)) => {
            let ghost mv = matches_view(ms@);
            let mut reps: Vec<Vec<char>> = Vec::new();
            let mut i: usize = 0;
            while i < ms.len()
                invariant
                    0 <= i <= ms.len(),
                    mv == matches_view(ms@),
                    reps@.len() == i,
                    forall|k: int| 0 <= k < i ==> #[trigger] reps@[k]@ == before@ + grp(mv[k], 1) + after@,
                decreases ms.len() - i,
            {
                assert(mv[i as int] == groups_view(ms@[i as int]));
                let mut rep: Vec<char> = Vec::new();
                push_str(&mut rep, before);
                append_vec(&mut rep, &group(&ms[i], 1));
                push_str(&mut rep, after);
                reps.push(rep);
                i = i + 1;
            }
            assert(vviews(reps@) =~= mv.map_values(|c: Seq<Option<Seq<char>>>| before@ + grp(c, 1) + after@));
            Ok(string_of(&splice_texts(&gaps, &reps)))
        },
        Err(m) => Err(TranspileError::TransformError(m)),
    }
}

/// Every match of `pat` in `s` replaced by its group 1 and `suffix`.
pub fn replace_g1_suffix(pat: &str, s: &str, suffix: &str) -> (r: String)
    ensures
        r@ == replace_g1(pat@, s@, suffix@),
{
    match regex_search(pat, s) {
        Ok((gaps, ms)) => {
            let ghost mv = matches_view(ms@);
            let mut reps: Vec<Vec<char>> = Vec::new();
            let mut i: usize = 0;
            while i < ms.len()
                invariant
                    0 <= i <= ms.len(),
                    mv == matches_view(ms@),
                    reps@.len() == i,
                    forall|k: int| 0 <= k < i ==> #[trigger] reps@[k]@ == grp(mv[k], 1) + suffix@,
                decreases ms.len() - i,
            {
                assert(mv[i as int] == groups_view(ms@[i as int]));
                let mut rep = group(&ms[i], 1);
                push_str(&mut rep, suffix);
                reps.push(rep);
                i = i + 1;
            }
            assert(vviews(reps@) =~= mv.map_values(|c: Seq<Option<Seq<char>>>| grp(c, 1) + suffix@));
            string_of(&splice_texts(&gaps, &reps))
        },
        Err(_) => String::from_str(s),
    }
}

/// Group 1 of the first match of `pat` in `s`, or `d`.
fn first_group1_or(pat: &str, s: &str, d: &str) -> (r: String)
    ensures
        r@ == first_g1_or(pat@, s@, d@),
{
    match regex_search(pat, s) {
        Ok((_g, ms)) => {
            if ms.len() > 0 {
                assert(matches_view(ms@)[0] == groups_view(ms@[0]));
                if has_group(&ms[0], 1) {
                    return string_of(&group(&ms[0], 1));
                }
            }
            String::from_str(d)
        },
        Err(_) => String::from_str(d),
    }
}

impl Translator {
    /// A loop condition with the loop variable compared to a `.len()` taken
    /// `as usize`; other conditions trimmed and kept.
    pub fn transform_len_comparison(condition: &str) -> (r: String)
        ensures
            r@ == len_cmp(condition@),
    {
        let t = string_of(&trim_vec(&chars_of(condition)));
        match regex_search(r"^([a-zA-Z_]\w*)\s*(<=|>=|<|>)\s*([a-zA-Z_]\w*(?:\[[^\[\]]+\])*)\.len\(\)$", t.as_str()) {
            Ok((_g, ms)) => {
                if ms.len() > 0 {
                    assert(matches_view(ms@)[0] == groups_view(ms@[0]));
                    let mut out: Vec<char> = Vec::new();
                    push_str(&mut out, "(");
                    append_vec(&mut out, &group(&ms[0], 1));
                    push_str(&mut out, " as usize) ");
                    append_vec(&mut out, &group(&ms[0], 2));
                    push_str(&mut out, " ");
                    append_vec(&mut out, &group(&ms[0], 3));
                    push_str(&mut out, ".len()");
                    return string_of(&out);
                }
            },
            Err(_) => {
                return t;
            },
        }
        match regex_search(r"^([a-zA-Z_]\w*)\.len\(\)\s*(<=|>=|<|>)\s*([a-zA-Z_]\w*)$", t.as_str()) {
            Ok((_g, ms)) => {
                if ms.len() > 0 {
                    assert(matches_view(ms@)[0] == groups_view(ms@[0]));
                    let mut out = group(&ms[0], 1);
                    push_str(&mut out, ".len() ");
                    append_vec(&mut out, &group(&ms[0], 2));
                    push_str(&mut out, " (");
                    append_vec(&mut out, &group(&ms[0], 3));
                    push_str(&mut out, " as usize)");
                    string_of(&out)
                } else {
                    t
                }
            },
            Err(_) => t,
        }
    }

    /// The variable a marked `++`/`--` update changes, or `default_var`.
    pub fn update_var_name_of(&self, update: &str, default_var: &str) -> (r: String)
        ensures
            r@ == update_var(update@, default_var@),
    {
        let uv = chars_of(update);
        if find_text(&uv, "###HUST_PREFIX###").is_some() {
            return first_group1_or(r"###HUST_PREFIX###\+\+([a-zA-Z_][a-zA-Z0-9_]*)###HUST_END###", update, default_var);
        }
        if find_text(&uv, "###HUST_POSTFIX###").is_some() {
            return first_group1_or(r"###HUST_POSTFIX###([a-zA-Z_][a-zA-Z0-9_]*)\+\+###HUST_END###", update, default_var);
        }
        String::from_str(default_var)
    }

    /// The statement closing each round of the `while` made from a `for`
    /// with update clause `update` and loop variable `default_var`.
    pub fn build_update_stmt(&self, update: &str, default_var: &str) -> (r: String)
        ensures
            r@ == update_stmt(update@, default_var@),
    {
        let uv = chars_of(update);
        let t = trim_vec(&uv);
        if t.len() > 0 && t[0] == '{' && t[t.len() - 1] == '}' {
            let mid = sub_vec(&t, 1, t.len() - 1);
            assert(mid@ == t@.subrange(1, t@.len() - 1));
            let inner = trim_vec(&mid);
            let b1 = remove_all_vec(&remove_all_vec(&remove_all_vec(&inner, "###HUST_PREFIX###"), "###HUST_POSTFIX###"), "###HUST_END###");
            let b2 = replace_g1_suffix(r"\b([a-zA-Z_][a-zA-Z0-9_]*)\s*\+\+", string_of(&b1).as_str(), " += 1");
            let b3 = replace_g1_suffix(r"\b([a-zA-Z_][a-zA-Z0-9_]*)\s*--", b2.as_str(), " -= 1");
            let mut out = chars_of(b3.as_str());
            out.push('\n');
            proof {
                reveal_strlit("\n");
                assert(t@ == trim(update@));
                assert(out@ == b3@ + "\n"@);
            }
            return string_of(&out);
        }
        if find_text(&uv, "###HUST_PREFIX###").is_some() || find_text(&uv, "###HUST_POSTFIX###").is_some() {
            let v = chars_of(self.update_var_name_of(update, default_var).as_str());
            let mut out: Vec<char> = Vec::new();
            append_vec(&mut out, &v);
            push_str(&mut out, " = ");
            append_vec(&mut out, &v);
            if find_text(&uv, "++").is_some() {
                push_str(&mut out, " + 1;");
            } else {
                push_str(&mut out, " - 1;");
            }
            return string_of(&out);
        }
        string_of(&t)
    }

    /// The `while` loop for a `for` with header groups `c` and body `body`.
    fn while_of(&self, c: &Vec<Option<String>>, body: &String, typed: bool) -> (r: Vec<char>)
        ensures
            r@ == while_text(groups_view(*c), body@, typed),
    {
        let mut out: Vec<char> = Vec::new();
        if typed {
            push_str(&mut out, "let mut ");
            append_vec(&mut out, &group(c, 2));
            push_str(&mut out, ": ");
            append_vec(&mut out, &group(c, 1));
            push_str(&mut out, " = ");
            append_vec(&mut out, &trim_vec(&group(c, 3)));
            push_str(&mut out, "; while ");
            push_str(&mut out, Self::transform_len_comparison(string_of(&trim_vec(&group(c, 4))).as_str()).as_str());
            push_str(&mut out, " {");
            push_str(&mut out, body.as_str());
            push_str(&mut out, "\n");
            push_str(&mut out, self.build_update_stmt(string_of(&trim_vec(&group(c, 5))).as_str(), string_of(&group(c, 2)).as_str()).as_str());
            push_str(&mut out, "}");
        } else {
            append_vec(&mut out, &group(c, 1));
            push_str(&mut out, " = ");
            append_vec(&mut out, &trim_vec(&group(c, 2)));
            push_str(&mut out, "; while ");
            push_str(&mut out, Self::transform_len_comparison(string_of(&trim_vec(&group(c, 3))).as_str()).as_str());
            push_str(&mut out, " {");
            push_str(&mut out, body.as_str());
            push_str(&mut out, "\n");
            push_str(&mut out, self.build_update_stmt(string_of(&trim_vec(&group(c, 4))).as_str(), string_of(&group(c, 1)).as_str()).as_str());
            push_str(&mut out, "}");
        }
        out
    }

    /// The first `for` of `s` of the kind `typed` says, as a `while`.
    fn for_step_once(&self, s: &String, typed: bool) -> (r: Option<String>)
        ensures
            match r {
                Some(t) => for_step(s@, typed) == Some(t@),
                None => for_step(s@, typed) is None,
            },
    {
        let pat: &str = if typed {
            r"for\s*\(\s*(i8|i16|i32|i64|u8|u16|u32|u64)\s+([a-zA-Z_]\w*)\s*=\s*([^;]+)\s*;\s*([^;]+)\s*;\s*([^\)]+)\)"
        } else {
            r"for\s*\(\s*([a-zA-Z_]\w*)\s*=\s*([^;]+)\s*;\s*([^;]+)\s*;\s*([^\)]+)\)"
        };
        assert(pat@ == for_pat(typed));
        let (gaps, ms) = match regex_search(pat, s.as_str()) {
            Ok(x) => x,
            Err(_) => {
                return None;
            },
        };
        if ms.len() == 0 {
            return None;
        }
        let sv = chars_of(s.as_str());
        let hs = chars_of(gaps[0].as_str()).len();
        let w0 = group(&ms[0], 0);
        proof {
            lemma_first_match_within(strings(gaps@), whole(matches_view(ms@)), s@);
            assert(matches_view(ms@)[0] == groups_view(ms@[0]));
            assert(strings(gaps@)[0] == gaps@[0]@);
            assert(whole(matches_view(ms@))[0] == w0@);
        }
        assert(hs + w0.len() <= sv.len());
        let he = hs + w0.len();
        let (body, e) = match self.for_body_at(s.as_str(), he) {
            Some(x) => x,
            None => {
                return None;
            },
        };
        let mut out = sub_vec(&sv, 0, hs);
        append_vec(&mut out, &self.while_of(&ms[0], &body, typed));
        append_vec(&mut out, &sub_vec(&sv, e, sv.len()));
        Some(string_of(&out))
    }

    /// `for_step_once` repeated until it finds nothing, at most as many
    /// times as `s` has characters.
    fn for_pass_all(&self, s: String, typed: bool) -> (r: String)
        ensures
            r@ == for_pass(s@, typed, s@.len()),
    {
        let ghost s0 = s@;
        let mut fuel: usize = chars_of(s.as_str()).len();
        let mut cur = s;
        loop
            invariant
                for_pass(s0, typed, s0.len()) == for_pass(cur@, typed, fuel as nat),
            ensures
                for_pass(s0, typed, s0.len()) == cur@,
            decreases fuel,
        {
            if fuel == 0 {
                break;
            }
            match self.for_step_once(&cur, typed) {
                None => {
                    break;
                },
                Some(t) => {
                    cur = t;
                    fuel = fuel - 1;
                },
            }
        }
        cur
    }

    /// C-style `for` loops as `while` loops: `for (i32 i = 0; i < n; i++)
    /// { .. }` becomes `let mut i: i32 = 0; while i < n { ..\ni = i + 1;}`;
    /// a header without a type assigns the loop variable instead.
    pub fn transform_for_loop(&self, source: &str) -> (r: Result<String, TranspileError>)
        ensures
            result_view(r) == rule_for_loops(source@),
    {
        match regex_search(r"for\s*\(\s*(i8|i16|i32|i64|u8|u16|u32|u64)\s+([a-zA-Z_]\w*)\s*=\s*([^;]+)\s*;\s*([^;]+)\s*;\s*([^\)]+)\)", "") {
            Ok(_) => {},
            Err(m) => {
                return Err(TranspileError::TransformError(m));
            },
        }
        let s1 = mark_pass(r"(\b[a-zA-Z_][a-zA-Z0-9_]*)\+\+", source, "###HUST_POSTFIX###", "++###HUST_END###")?;
        let s2 = mark_pass(r"(\b[a-zA-Z_][a-zA-Z0-9_]*)\-\-", s1.as_str(), "###HUST_POSTFIX###", "--###HUST_END###")?;
        let s3 = mark_pass(r"\+\+\s*([a-zA-Z_][a-zA-Z0-9_]*)", s2.as_str(), "###HUST_PREFIX###++", "###HUST_END###")?;
        let s4 = mark_pass(r"\-\-\s*([a-zA-Z_][a-zA-Z0-9_]*)", s3.as_str(), "###HUST_PREFIX###--", "###HUST_END###")?;
        let s5 = self.for_pass_all(s4, true);
        match regex_search(r"for\s*\(\s*([a-zA-Z_]\w*)\s*=\s*([^;]+)\s*;\s*([^;]+)\s*;\s*([^\)]+)\)", "") {
            Ok(_) => {},
            Err(m) => {
                return Err(TranspileError::TransformError(m));
            },
        }
        let s6 = self.for_pass_all(s5, false);
        let v6 = chars_of(s6.as_str());
        let v7 = remove_all_vec(&remove_all_vec(&remove_all_vec(&v6, "###HUST_PREFIX###"), "###HUST_POSTFIX###"), "###HUST_END###");
        if find_text(&v7, "###HUST_").is_some() {
            return Err(TranspileError::TransformError(String::from_str("Internal error: Hust markers not properly removed")));
        }
        Ok(string_of(&v7))
    }
}


/// An ASCII letter, digit or `_`.
pub open spec fn word_ch(c: char) -> bool {
    ('a' <= c && c <= 'z') || ('A' <= c && c <= 'Z') || ('0' <= c && c <= '9') || c == '_'
}

/// ASCII whitespace, as `char::is_whitespace` finds it in a single byte.
pub open spec fn ascii_ws(c: char) -> bool {
    ('\u{9}' <= c && c <= '\u{d}') || c == ' '
}

/// Where the run of word characters ending before `i` starts.
pub open spec fn word_start(s: Seq<char>, i: int) -> int
    decreases i,
{
    if i > 0 && i <= s.len() && word_ch(s[i - 1]) {
        word_start(s, i - 1)
    } else {
        i
    }
}

/// Where the run of word characters starting at `i` ends.
pub open spec fn word_end(s: Seq<char>, i: int) -> int
    decreases s.len() - i,
{
    if 0 <= i < s.len() && word_ch(s[i]) {
        word_end(s, i + 1)
    } else {
        i
    }
}

/// Where the run of ASCII whitespace ending before `i` starts.
pub open spec fn ws_back(s: Seq<char>, i: int) -> int
    decreases i,
{
    if i > 0 && i <= s.len() && ascii_ws(s[i - 1]) {
        ws_back(s, i - 1)
    } else {
        i
    }
}

/// Scanning left from `pos` with bracket depth `d`: the position of the `[`
/// that brings the depth to zero, or 0.
pub open spec fn open_back(s: Seq<char>, pos: int, d: int) -> int
    decreases pos,
{
    if pos <= 0 || pos > s.len() {
        0
    } else {
        let c = s[pos - 1];
        if c == ']' {
            open_back(s, pos - 1, d + 1)
        } else if c == '[' {
            if d - 1 == 0 {
                pos - 1
            } else {
                open_back(s, pos - 1, d - 1)
            }
        } else {
            open_back(s, pos - 1, d)
        }
    }
}

/// The start of the identifier that an index chain ending at `pos` hangs
/// from (`m` for `m[0][1]`); `pos` itself when no chain precedes it.
pub open spec fn chain_root(s: Seq<char>, pos: int) -> int
    decreases pos,
{
    let p1 = ws_back(s, pos);
    if p1 > 0 && p1 <= s.len() && s[p1 - 1] == ']' {
        let p2 = open_back(s, p1, 0);
        if p2 == 0 {
            pos
        } else {
            let s2 = word_start(s, p2);
            if s2 == p2 || s2 >= pos || s2 < 0 {
                pos
            } else {
                chain_root(s, s2)
            }
        }
    } else {
        pos
    }
}

/// The root identifier of the host of a `.to_vec()` whose `.` is at `dot`.
pub open spec fn host_root(s: Seq<char>, dot: int) -> Seq<char> {
    let rs = chain_root(s, word_start(s, dot));
    s.subrange(rs, word_end(s, rs))
}

/// Group 2 of each match.
pub open spec fn group2s(m: Seq<Seq<Option<Seq<char>>>>) -> Seq<Seq<char>> {
    m.map_values(|c: Seq<Option<Seq<char>>>| grp(c, 2))
}

/// The pattern of a static array declaration.
pub open spec fn static_decl_pat() -> Seq<char> {
    r"\b(?:i8|i16|i32|i64|u8|u16|u32|u64|f32|f64|bool)((?:\[\d+\])+)\s+([a-zA-Z_][a-zA-Z0-9_]*)\b"@
}

/// Some match of `m2` (pieces `g2` between them) is a `.to_vec()` whose
/// host's root is among `names`.
pub open spec fn static_hit(src: Seq<char>, names: Seq<Seq<char>>, g2: Seq<Seq<char>>, m2: Seq<Seq<Option<Seq<char>>>>) -> bool {
    exists|k: int| 0 <= k < m2.len() && names.contains(#[trigger] host_root(src, match_end(g2, whole(m2), k) - grp(m2[k], 0).len()))
}

/// The message for `.to_vec()` on a static array.
pub open spec fn static_to_vec_msg() -> Seq<char> {
    "syntax error: .to_vec() on a static array is not supported \u{2014} a static array stays static (r18), Hust provides no automatic static-to-dynamic conversion. Build the dynamic array directly with push([]) / push(v)."@
}

/// `.to_vec()` on a static array (whatever index chain leads to it) is
/// refused.
pub open spec fn rule_static_to_vec(src: Seq<char>) -> Result<(), TranspileErrorView> {
    match regex_scan(static_decl_pat(), src) {
        None => Err(TranspileErrorView::TransformError(regex_error(static_decl_pat()))),
        Some((g, m)) => if m.len() == 0 {
            Ok(())
        } else {
            match regex_scan(r"\.to_vec\(\)"@, src) {
                None => Err(TranspileErrorView::TransformError(regex_error(r"\.to_vec\(\)"@))),
                Some((g2, m2)) => if static_hit(src, group2s(m), g2, m2) {
                    Err(TranspileErrorView::TransformError(static_to_vec_msg()))
                } else {
                    Ok(())
                },
            }
        },
    }
}

fn is_word_char(c: char) -> (b: bool)
    ensures
        b == word_ch(c),
{
    ('a' <= c && c <= 'z') || ('A' <= c && c <= 'Z') || ('0' <= c && c <= '9') || c == '_'
}

fn word_start_at(s: &Vec<char>, i: usize) -> (r: usize)
    requires
        i <= s.len(),
    ensures
        r == word_start(s@, i as int),
        r <= i,
{
    let mut k = i;
    while k > 0 && is_word_char(s[k - 1])
        invariant
            k <= i <= s.len(),
            word_start(s@, i as int) == word_start(s@, k as int),
        decreases k,
    {
        k = k - 1;
    }
    k
}

fn word_end_at(s: &Vec<char>, i: usize) -> (r: usize)
    requires
        i <= s.len(),
    ensures
        r == word_end(s@, i as int),
        i <= r <= s.len(),
{
    let mut k = i;
    while k < s.len() && is_word_char(s[k])
        invariant
            i <= k <= s.len(),
            word_end(s@, i as int) == word_end(s@, k as int),
        decreases s.len() - k,
    {
        k = k + 1;
    }
    k
}

fn ws_back_at(s: &Vec<char>, i: usize) -> (r: usize)
    requires
        i <= s.len(),
    ensures
        r == ws_back(s@, i as int),
        r <= i,
{
    let mut k = i;
    while k > 0 && (('\u{9}' <= s[k - 1] && s[k - 1] <= '\u{d}') || s[k - 1] == ' ')
        invariant
            k <= i <= s.len(),
            ws_back(s@, i as int) == ws_back(s@, k as int),
        decreases k,
    {
        k = k - 1;
    }
    k
}

fn open_back_at(s: &Vec<char>, p: usize) -> (r: usize)
    requires
        0 < p <= s.len(),
        s@[p - 1] == ']',
    ensures
        r == open_back(s@, p as int, 0),
        r < p,
{
    let mut pos = p;
    let mut d: usize = 0;
    while pos > 0
        invariant
            0 <= pos <= p <= s.len(),
            s@[p - 1] == ']',
            open_back(s@, p as int, 0) == open_back(s@, pos as int, d as int),
            pos == p ==> d == 0,
            pos < p ==> d >= 1,
            d <= p - pos,
        decreases pos,
    {
        let c = s[pos - 1];
        if c == ']' {
            d = d + 1;
        } else if c == '[' {
            if d == 1 {
                return pos - 1;
            }
            d = d - 1;
        }
        pos = pos - 1;
    }
    0
}

/// The root identifier of the host of the `.to_vec()` at `dot`.
fn host_root_of(s: &Vec<char>, dot: usize) -> (r: Vec<char>)
    requires
        dot <= s.len(),
    ensures
        r@ == host_root(s@, dot as int),
{
    let start = word_start_at(s, dot);
    let mut pos = start;
    loop
        invariant
            pos <= s.len(),
            chain_root(s@, start as int) == chain_root(s@, pos as int),
        ensures
            chain_root(s@, start as int) == pos,
        decreases pos,
    {
        let p1 = ws_back_at(s, pos);
        if p1 > 0 && s[p1 - 1] == ']' {
            let p2 = open_back_at(s, p1);
            if p2 == 0 {
                break;
            }
            let s2 = word_start_at(s, p2);
            if s2 == p2 {
                break;
            }
            pos = s2;
        } else {
            break;
        }
    }
    let e = word_end_at(s, pos);
    sub_vec(s, pos, e)
}

impl Translator {
    /// `.to_vec()` on a static array, or on a row of one, is a syntax error:
    /// a static array stays static.
    pub fn reject_static_to_vec(source: &str) -> (r: Result<(), TranspileError>)
        ensures
            check_view(r) == rule_static_to_vec(source@),
    {
        let (_g, ms) = match regex_search(r"\b(?:i8|i16|i32|i64|u8|u16|u32|u64|f32|f64|bool)((?:\[\d+\])+)\s+([a-zA-Z_][a-zA-Z0-9_]*)\b", source) {
            Ok(x) => x,
            Err(m) => {
                return Err(TranspileError::TransformError(m));
            },
        };
        if ms.len() == 0 {
            return Ok(());
        }
        let ghost mv = matches_view(ms@);
        let ghost gs = strings(_g@);
        let ghost nm = group2s(mv);
        let mut names: Vec<String> = Vec::new();
        let mut i: usize = 0;
        while i < ms.len()
            invariant
                0 <= i <= ms.len(),
                mv == matches_view(ms@),
                nm == group2s(mv),
                strings(names@) == nm.subrange(0, i as int),
            decreases ms.len() - i,
        {
            assert(mv[i as int] == groups_view(ms@[i as int]));
            let ghost n0 = names@;
            names.push(string_of(&group(&ms[i], 2)));
            assert(strings(names@) =~= strings(n0).push(nm[i as int]));
            assert(nm.subrange(0, i + 1) =~= nm.subrange(0, i as int).push(nm[i as int]));
            i = i + 1;
        }
        assert(nm.subrange(0, ms.len() as int) =~= nm);
        let (g2, m2) = match regex_search(r"\.to_vec\(\)", source) {
            Ok(x) => x,
            Err(m) => {
                return Err(TranspileError::TransformError(m));
            },
        };
        let sv = chars_of(source);
        let ends = match_ends(&g2, &m2, source);
        let ghost gv = strings(g2@);
        let ghost wv = whole(matches_view(m2@));
        let mut k: usize = 0;
        while k < m2.len()
            invariant
                0 <= k <= m2.len(),
                sv@ == source@,
                strings(names@) == nm,
                nm == group2s(mv),
                mv.len() > 0,
                regex_scan(static_decl_pat(), source@) == Some((gs, mv)),
                regex_scan(r"\.to_vec\(\)"@, source@) == Some((gv, matches_view(m2@))),
                gv == strings(g2@),
                wv == whole(matches_view(m2@)),
                ends@.len() == m2@.len(),
                forall|j: int| 0 <= j < m2@.len() ==> #[trigger] ends@[j] == match_end(gv, wv, j),
                forall|j: int| 0 <= j < m2@.len() ==> ends@[j] <= source@.len(),
                forall|j: int| 0 <= j < k ==> !nm.contains(#[trigger] host_root(source@, match_end(gv, wv, j) - grp(matches_view(m2@)[j], 0).len())),
            decreases m2.len() - k,
        {
            assert(matches_view(m2@)[k as int] == groups_view(m2@[k as int]));
            let wlen = group(&m2[k], 0).len();
            assert(wv[k as int] == grp(matches_view(m2@)[k as int], 0));
            proof {
                crate::pattern::lemma_match_end_ge(gv, wv, k as int);
            }
            let dot = ends[k] - wlen;
            let root = host_root_of(&sv, dot);
            if has_text(&names, &root) {
                assert(nm.contains(host_root(source@, match_end(gv, wv, k as int) - grp(matches_view(m2@)[k as int], 0).len())));
                let msg = String::from_str("syntax error: .to_vec() on a static array is not supported \u{2014} a static array stays static (r18), Hust provides no automatic static-to-dynamic conversion. Build the dynamic array directly with push([]) / push(v).");
                assert(msg@ == static_to_vec_msg());
                assert(static_hit(source@, nm, gv, matches_view(m2@)));
                return Err(TranspileError::TransformError(msg));
            }
            k = k + 1;
        }
        Ok(())
    }
}


/// The header of a class or interface, up to its `{`.
pub open spec fn head_pat() -> Seq<char> {
    r"\b(?:class|interface)\s+\w+[^{;]*\{"@
}

/// Scanning from `i` with brace depth `depth`: the position after the `}`
/// that brings the depth to zero, or the end of `s`.
pub open spec fn span_close(s: Seq<char>, i: int, depth: int) -> int
    decreases s.len() - i,
{
    if i < 0 || i >= s.len() {
        s.len() as int
    } else if s[i] == '{' {
        span_close(s, i + 1, depth + 1)
    } else if s[i] == '}' {
        if depth - 1 == 0 {
            i + 1
        } else {
            span_close(s, i + 1, depth - 1)
        }
    } else {
        span_close(s, i + 1, depth)
    }
}

/// The span of each class or interface found (matches `m`, pieces `g`):
/// from its header to its closing brace.
pub open spec fn head_spans(s: Seq<char>, g: Seq<Seq<char>>, m: Seq<Seq<Option<Seq<char>>>>) -> Seq<(int, int)> {
    Seq::new(m.len(), |k: int| head_span(s, g, m, k))
}

/// The span of the `k`-th class or interface found.
pub open spec fn head_span(s: Seq<char>, g: Seq<Seq<char>>, m: Seq<Seq<Option<Seq<char>>>>, k: int) -> (int, int) {
    let e = match_end(g, whole(m), k);
    (e - grp(m[k], 0).len(), span_close(s, close_from(e), 0))
}

/// Where the brace scan of a header ending at `e` starts: its `{`.
pub open spec fn close_from(e: int) -> int {
    if e > 0 {
        e - 1
    } else {
        0
    }
}

/// A refused pattern among the first candidates stops the scan for good.
proof fn lemma_unwritten_err(s: Seq<char>, cands: Seq<(int, Seq<char>)>, k: int, n: int)
    requires
        0 <= k <= n,
        unwritten(s, cands, k) is Err,
    ensures
        unwritten(s, cands, n) == unwritten(s, cands, k),
    decreases n - k,
{
    if k < n {
        lemma_unwritten_err(s, cands, k, n - 1);
    }
}

/// Position `i` lies in one of the spans.
pub open spec fn covered(sp: Seq<(int, int)>, i: int) -> bool {
    exists|k: int| 0 <= k < sp.len() && #[trigger] sp[k].0 <= i && i < sp[k].1
}

/// `s` with every character inside a span but line breaks blanked.
pub open spec fn masked_by(s: Seq<char>, sp: Seq<(int, int)>) -> Seq<char> {
    Seq::new(s.len(), |i: int| if covered(sp, i) && s[i] != '\n' { ' ' } else { s[i] })
}

/// How many line breaks `s` holds.
pub open spec fn nl_count(s: Seq<char>) -> nat
    decreases s.len(),
{
    if s.len() == 0 {
        0
    } else {
        nl_count(s.drop_last()) + if s.last() == '\n' { 1nat } else { 0nat }
    }
}

/// The line (from 1) of position `pos`.
pub open spec fn line_at(s: Seq<char>, pos: int) -> int {
    nl_count(s.subrange(0, pos)) + 1int
}

/// Where match `k` (matches `m`, pieces `g`) starts.
pub open spec fn match_start(g: Seq<Seq<char>>, m: Seq<Seq<Option<Seq<char>>>>, k: int) -> int {
    match_end(g, whole(m), k) - grp(m[k], 0).len()
}

/// The comma-separated names `list` declared on line `line`, trimmed.
pub open spec fn names_on(line: int, list: Seq<char>) -> Seq<(int, Seq<char>)> {
    split_on(list, ',').map_values(|n: Seq<char>| (line, trim(n)))
}

/// The names the first `k` declarations `m` of a kind declare: group
/// `gk` split at commas (`split`), or taken whole; declarations whose group
/// 1 is a primitive type skipped when `skip_prim`.
pub open spec fn decl_cands(s: Seq<char>, g: Seq<Seq<char>>, m: Seq<Seq<Option<Seq<char>>>>, gk: int, split: bool, skip_prim: bool, k: int) -> Seq<(int, Seq<char>)>
    decreases k,
{
    if k <= 0 {
        Seq::empty()
    } else {
        let prev = decl_cands(s, g, m, gk, split, skip_prim, k - 1);
        let c = m[k - 1];
        if skip_prim && primitive(grp(c, 1)) {
            prev
        } else {
            let line = line_at(s, match_start(g, m, k - 1));
            if split {
                prev + names_on(line, grp(c, gk))
            } else {
                prev.push((line, grp(c, gk)))
            }
        }
    }
}

/// The pattern of a write to variable `name`.
pub open spec fn write_pat(name: Seq<char>) -> Seq<char> {
    r"\b"@ + escaped(name) + r"\s*(?:=[^=]|[+\-*/]=|\+\+|--|\[[^\]]*\]\s*=[^=]|\.\s*\w+\s*=[^=])"@
}

/// Going through the first `k` candidates: the names seen and, in order,
/// the first declaration of each name that `s` never writes; the error of a
/// refused pattern.
pub open spec fn unwritten(s: Seq<char>, cands: Seq<(int, Seq<char>)>, k: int) -> Result<(Seq<Seq<char>>, Seq<(int, Seq<char>)>), Seq<char>>
    decreases k,
{
    if k <= 0 {
        Ok((Seq::empty(), Seq::empty()))
    } else {
        match unwritten(s, cands, k - 1) {
            Err(e) => Err(e),
            Ok((seen, out)) => {
                let line = cands[k - 1].0;
                let name = cands[k - 1].1;
                if seen.contains(name) {
                    Ok((seen, out))
                } else {
                    match regex_scan(write_pat(name), s) {
                        None => Err(regex_error(write_pat(name))),
                        Some((g, m)) => Ok((seen.push(name), if m.len() == 0 { out.push((line, name)) } else { out })),
                    }
                }
            },
        }
    }
}

/// The pattern of a scalar declaration without initializer.
pub open spec fn scalar_decl_pat() -> Seq<char> {
    r"\b(?:i8|i16|i32|i64|u8|u16|u32|u64|f32|f64|bool|char|String)\s+([a-zA-Z_][a-zA-Z0-9_]*(?:\s*,\s*[a-zA-Z_][a-zA-Z0-9_]*)*)\s*;"@
}

/// The pattern of a static array declaration without initializer.
pub open spec fn array_decl_pat() -> Seq<char> {
    r"\b(?:i8|i16|i32|i64|u8|u16|u32|u64|f32|f64|bool)(?:\[[a-zA-Z0-9_]+\])+\s+([a-zA-Z_][a-zA-Z0-9_]*)\s*;"@
}

/// The pattern of a class-typed declaration without initializer.
pub open spec fn object_decl_pat() -> Seq<char> {
    r"\b([A-Z][a-zA-Z0-9_]*)\s+([a-z_][a-zA-Z0-9_]*(?:\s*,\s*[a-z_][a-zA-Z0-9_]*)*)\s*;"@
}

/// The reminders of `src`: (line, name) of each variable declared without
/// an initializer and never written afterwards, class and interface bodies
/// left out; the error of a refused pattern.
pub open spec fn init_reminders(src: Seq<char>) -> Result<Seq<(int, Seq<char>)>, TranspileErrorView> {
    match regex_scan(head_pat(), src) {
        None => Err(TranspileErrorView::TransformError(regex_error(head_pat()))),
        Some((g, m)) => {
            let mk = masked_by(src, head_spans(src, g, m));
            match regex_scan(scalar_decl_pat(), mk) {
                None => Err(TranspileErrorView::TransformError(regex_error(scalar_decl_pat()))),
                Some((g1, m1)) => match regex_scan(array_decl_pat(), mk) {
                    None => Err(TranspileErrorView::TransformError(regex_error(array_decl_pat()))),
                    Some((g2, m2)) => match regex_scan(object_decl_pat(), mk) {
                        None => Err(TranspileErrorView::TransformError(regex_error(object_decl_pat()))),
                        Some((g3, m3)) => {
                            let cands = decl_cands(mk, g1, m1, 1, true, false, m1.len() as int)
                                + decl_cands(mk, g2, m2, 1, false, false, m2.len() as int)
                                + decl_cands(mk, g3, m3, 2, true, true, m3.len() as int);
                            reminders_of(mk, cands)
                        },
                    },
                },
            }
        },
    }
}

/// The content of a list of reminders.
pub open spec fn reminders_view(v: Seq<(usize, String)>) -> Seq<(int, Seq<char>)> {
    v.map_values(|p: (usize, String)| (p.0 as int, p.1@))
}

fn span_close_at(s: &Vec<char>, i: usize) -> (r: usize)
    ensures
        r == span_close(s@, i as int, 0),
        r <= s.len(),
{
    let mut pos = i;
    let mut depth: i128 = 0;
    while pos < s.len()
        invariant
            i <= pos,
            span_close(s@, i as int, 0) == span_close(s@, pos as int, depth as int),
            -(pos - i) <= depth <= pos - i,
        decreases s.len() - pos,
    {
        if s[pos] == '{' {
            depth = depth + 1;
        } else if s[pos] == '}' {
            if depth == 1 {
                return pos + 1;
            }
            depth = depth - 1;
        }
        pos = pos + 1;
    }
    s.len()
}


/// The content of a list of spans.
pub open spec fn spans_view(v: Seq<(usize, usize)>) -> Seq<(int, int)> {
    v.map_values(|p: (usize, usize)| (p.0 as int, p.1 as int))
}

/// The reminders found among candidates `cands` of masked text `mk`.
pub open spec fn reminders_of(mk: Seq<char>, cands: Seq<(int, Seq<char>)>) -> Result<Seq<(int, Seq<char>)>, TranspileErrorView> {
    match unwritten(mk, cands, cands.len() as int) {
        Err(e) => Err(TranspileErrorView::TransformError(e)),
        Ok((seen, out)) => Ok(out),
    }
}

/// `s` with the spans `sp` blanked (line breaks kept).
fn mask_spans(s: &Vec<char>, sp: &Vec<(usize, usize)>) -> (r: Vec<char>)
    ensures
        r@ == masked_by(s@, spans_view(sp@)),
{
    let ghost spv = spans_view(sp@);
    let mut out: Vec<char> = Vec::new();
    let mut i: usize = 0;
    while i < s.len()
        invariant
            0 <= i <= s.len(),
            spv == spans_view(sp@),
            out@.len() == i,
            forall|j: int| 0 <= j < i ==> #[trigger] out@[j] == masked_by(s@, spv)[j],
        decreases s.len() - i,
    {
        let mut hit = false;
        let mut k: usize = 0;
        while k < sp.len()
            invariant
                0 <= k <= sp.len(),
                spv == spans_view(sp@),
                hit == exists|q: int| 0 <= q < k && #[trigger] spv[q].0 <= i && i < spv[q].1,
            decreases sp.len() - k,
        {
            assert(spv[k as int] == (sp@[k as int].0 as int, sp@[k as int].1 as int));
            if sp[k].0 <= i && i < sp[k].1 {
                hit = true;
            }
            k = k + 1;
        }
        assert(hit == covered(spv, i as int));
        if hit && s[i] != '\n' {
            out.push(' ');
        } else {
            out.push(s[i]);
        }
        i = i + 1;
    }
    assert(out@ =~= masked_by(s@, spv));
    out
}

/// How many line breaks come before position `pos` of `s`.
fn nl_before(s: &Vec<char>, pos: usize) -> (r: usize)
    requires
        pos <= s.len(),
    ensures
        r == nl_count(s@.subrange(0, pos as int)),
        r <= pos,
{
    let mut n: usize = 0;
    let mut i: usize = 0;
    assert(s@.subrange(0, 0) =~= Seq::<char>::empty());
    while i < pos
        invariant
            0 <= i <= pos <= s.len(),
            n == nl_count(s@.subrange(0, i as int)),
            n <= i,
        decreases pos - i,
    {
        assert(s@.subrange(0, i + 1).drop_last() =~= s@.subrange(0, i as int));
        if s[i] == '\n' {
            n = n + 1;
        }
        i = i + 1;
    }
    n
}

/// The content of candidate lists.
pub open spec fn cands_view(v: Seq<(usize, Vec<char>)>) -> Seq<(int, Seq<char>)> {
    v.map_values(|p: (usize, Vec<char>)| (p.0 as int, p.1@))
}

/// Append the candidates of the declarations `ms` (pieces `gaps`) of `mk`.
fn push_decl_cands(out: &mut Vec<(usize, Vec<char>)>, mk: &Vec<char>, mks: &str, gaps: &Vec<String>, ms: &Vec<Vec<Option<String>>>, gk: usize, split: bool, skip_prim: bool)
    requires
        mk@ == mks@,
        mk@.len() < usize::MAX,
        gaps@.len() == ms@.len() + 1,
        mks@ == splice(strings(gaps@), whole(matches_view(ms@))),
    ensures
        cands_view(final(out)@) == cands_view(old(out)@) + decl_cands(mk@, strings(gaps@), matches_view(ms@), gk as int, split, skip_prim, ms@.len() as int),
{
    let ends = match_ends(gaps, ms, mks);
    let ghost g = strings(gaps@);
    let ghost m = matches_view(ms@);
    let ghost o0 = cands_view(out@);
    let mut k: usize = 0;
    while k < ms.len()
        invariant
            0 <= k <= ms.len(),
            mk@ == mks@,
            mk@.len() < usize::MAX,
            g == strings(gaps@),
            m == matches_view(ms@),
            ends@.len() == ms@.len(),
            forall|j: int| 0 <= j < ms@.len() ==> #[trigger] ends@[j] == match_end(g, whole(m), j),
            forall|j: int| 0 <= j < ms@.len() ==> ends@[j] <= mks@.len(),
            cands_view(out@) == o0 + decl_cands(mk@, g, m, gk as int, split, skip_prim, k as int),
        decreases ms.len() - k,
    {
        assert(m[k as int] == groups_view(ms@[k as int]));
        let c = &ms[k];
        let t1 = string_of(&group(c, 1));
        let skip = skip_prim && (str_eq(t1.as_str(), "i8") || str_eq(t1.as_str(), "i16") || str_eq(t1.as_str(), "i32")
            || str_eq(t1.as_str(), "i64") || str_eq(t1.as_str(), "u8") || str_eq(t1.as_str(), "u16")
            || str_eq(t1.as_str(), "u32") || str_eq(t1.as_str(), "u64") || str_eq(t1.as_str(), "f32")
            || str_eq(t1.as_str(), "f64") || str_eq(t1.as_str(), "bool") || str_eq(t1.as_str(), "char")
            || str_eq(t1.as_str(), "String"));
        if !skip {
            let wlen = group(c, 0).len();
            assert(whole(m)[k as int] == grp(m[k as int], 0));
            proof {
                crate::pattern::lemma_match_end_ge(g, whole(m), k as int);
            }
            let st = ends[k] - wlen;
            let line = nl_before(mk, st) + 1;
            let gv = group(c, gk);
            if split {
                let parts = split_vec(&gv, ',');
                let ghost ov = cands_view(out@);
                let mut q: usize = 0;
                while q < parts.len()
                    invariant
                        0 <= q <= parts.len(),
                        vviews(parts@) == split_on(gv@, ','),
                        line as int == line_at(mk@, match_start(g, m, k as int)),
                        cands_view(out@) == ov + names_on(line as int, gv@).subrange(0, q as int),
                    decreases parts.len() - q,
                {
                    assert(vviews(parts@)[q as int] == parts@[q as int]@);
                    let ghost o1 = cands_view(out@);
                    out.push((line, trim_vec(&parts[q])));
                    assert(cands_view(out@) =~= o1.push((line as int, trim(parts@[q as int]@))));
                    assert(names_on(line as int, gv@).subrange(0, q + 1) =~= names_on(line as int, gv@).subrange(0, q as int).push(names_on(line as int, gv@)[q as int]));
                    q = q + 1;
                }
                assert(names_on(line as int, gv@).subrange(0, parts.len() as int) =~= names_on(line as int, gv@));
            } else {
                let ghost o1 = cands_view(out@);
                out.push((line, gv));
                assert(cands_view(out@) =~= o1.push((line as int, grp(m[k as int], gk as int))));
            }
        }
        k = k + 1;
    }
}

impl Translator {
    /// The variables of `source` declared without an initializer and never
    /// written afterwards, each with the line of its first declaration;
    /// class and interface bodies are left out. The caller reminds the user
    /// of them: they must be initialized before use.
    pub fn remind_init_before_use(&self, source: &str) -> (r: Result<Vec<(usize, String)>, TranspileError>)
        requires
            source@.len() < usize::MAX,
        ensures
            match r {
                Ok(v) => init_reminders(source@) == Ok::<Seq<(int, Seq<char>)>, TranspileErrorView>(reminders_view(v@)),
                Err(e) => init_reminders(source@) == Err::<Seq<(int, Seq<char>)>, TranspileErrorView>(e@),
            },
    {
        let sv = chars_of(source);
        let (g0, ms0) = match regex_search(r"\b(?:class|interface)\s+\w+[^{;]*\{", source) {
            Ok(x) => x,
            Err(m) => {
                return Err(TranspileError::TransformError(m));
            },
        };
        let ends = match_ends(&g0, &ms0, source);
        let ghost g = strings(g0@);
        let ghost m = matches_view(ms0@);
        let mut spans: Vec<(usize, usize)> = Vec::new();
        let mut k: usize = 0;
        while k < ms0.len()
            invariant
                0 <= k <= ms0.len(),
                sv@ == source@,
                g == strings(g0@),
                m == matches_view(ms0@),
                ends@.len() == ms0@.len(),
                forall|j: int| 0 <= j < ms0@.len() ==> #[trigger] ends@[j] == match_end(g, whole(m), j),
                forall|j: int| 0 <= j < ms0@.len() ==> ends@[j] <= source@.len(),
                spans_view(spans@) == head_spans(source@, g, m).subrange(0, k as int),
            decreases ms0.len() - k,
        {
            assert(m[k as int] == groups_view(ms0@[k as int]));
            assert(whole(m)[k as int] == grp(m[k as int], 0));
            proof {
                crate::pattern::lemma_match_end_ge(g, whole(m), k as int);
            }
            let wlen = group(&ms0[k], 0).len();
            let e = ends[k];
            let close = span_close_at(&sv, if e > 0 { e - 1 } else { 0 });
            assert(close == head_span(source@, g, m, k as int).1);
            assert(e - wlen == head_span(source@, g, m, k as int).0);
            let ghost s0 = spans@;
            spans.push((e - wlen, close));
            assert(spans_view(spans@) =~= spans_view(s0).push(((e - wlen) as int, close as int)));
            assert(head_spans(source@, g, m)[k as int] == head_span(source@, g, m, k as int));
            assert(head_spans(source@, g, m).subrange(0, k + 1) =~= head_spans(source@, g, m).subrange(0, k as int).push(head_span(source@, g, m, k as int)));
            k = k + 1;
        }
        assert(head_spans(source@, g, m).subrange(0, ms0.len() as int) =~= head_spans(source@, g, m));
        let mk = mask_spans(&sv, &spans);
        let mks = string_of(&mk);
        let (g1, m1) = match regex_search(r"\b(?:i8|i16|i32|i64|u8|u16|u32|u64|f32|f64|bool|char|String)\s+([a-zA-Z_][a-zA-Z0-9_]*(?:\s*,\s*[a-zA-Z_][a-zA-Z0-9_]*)*)\s*;", mks.as_str()) {
            Ok(x) => x,
            Err(e) => {
                return Err(TranspileError::TransformError(e));
            },
        };
        let (g2, m2) = match regex_search(r"\b(?:i8|i16|i32|i64|u8|u16|u32|u64|f32|f64|bool)(?:\[[a-zA-Z0-9_]+\])+\s+([a-zA-Z_][a-zA-Z0-9_]*)\s*;", mks.as_str()) {
            Ok(x) => x,
            Err(e) => {
                return Err(TranspileError::TransformError(e));
            },
        };
        let (g3, m3) = match regex_search(r"\b([A-Z][a-zA-Z0-9_]*)\s+([a-z_][a-zA-Z0-9_]*(?:\s*,\s*[a-z_][a-zA-Z0-9_]*)*)\s*;", mks.as_str()) {
            Ok(x) => x,
            Err(e) => {
                return Err(TranspileError::TransformError(e));
            },
        };
        let mut cands: Vec<(usize, Vec<char>)> = Vec::new();
        assert(cands_view(cands@) =~= Seq::<(int, Seq<char>)>::empty());
        push_decl_cands(&mut cands, &mk, mks.as_str(), &g1, &m1, 1, true, false);
        push_decl_cands(&mut cands, &mk, mks.as_str(), &g2, &m2, 1, false, false);
        push_decl_cands(&mut cands, &mk, mks.as_str(), &g3, &m3, 2, true, true);
        let ghost cv = cands_view(cands@);
        assert(init_reminders(source@) == reminders_of(mk@, cv));
        let mut seen: Vec<String> = Vec::new();
        let mut out: Vec<(usize, String)> = Vec::new();
        assert(strings(seen@) =~= Seq::<Seq<char>>::empty());
        assert(reminders_view(out@) =~= Seq::<(int, Seq<char>)>::empty());
        let mut i: usize = 0;
        while i < cands.len()
            invariant
                0 <= i <= cands.len(),
                cv == cands_view(cands@),
                mks@ == mk@,
                init_reminders(source@) == reminders_of(mk@, cv),
                unwritten(mk@, cv, i as int) == Ok::<(Seq<Seq<char>>, Seq<(int, Seq<char>)>), Seq<char>>((strings(seen@), reminders_view(out@))),
            decreases cands.len() - i,
        {
            assert(cv[i as int] == (cands@[i as int].0 as int, cands@[i as int].1@));
            let name = &cands[i].1;
            if !has_text(&seen, name) {
                let mut pat: Vec<char> = Vec::new();
                push_str(&mut pat, r"\b");
                push_str(&mut pat, regex_escape(string_of(name).as_str()).as_str());
                push_str(&mut pat, r"\s*(?:=[^=]|[+\-*/]=|\+\+|--|\[[^\]]*\]\s*=[^=]|\.\s*\w+\s*=[^=])");
                assert(pat@ == write_pat(name@));
                let (_gw, mw) = match regex_search(string_of(&pat).as_str(), mks.as_str()) {
                    Ok(x) => x,
                    Err(e) => {
                        proof {
                            lemma_unwritten_err(mk@, cv, i + 1, cv.len() as int);
                        }
                        return Err(TranspileError::TransformError(e));
                    },
                };
                let ghost s0 = seen@;
                seen.push(string_of(name));
                assert(strings(seen@) =~= strings(s0).push(name@));
                if mw.len() == 0 {
                    let ghost o0 = out@;
                    out.push((cands[i].0, string_of(name)));
                    assert(reminders_view(out@) =~= reminders_view(o0).push((cands@[i as int].0 as int, name@)));
                }
            }
            i = i + 1;
        }
        Ok(out)
    }
}


/// Where the operand of a cast starting at `start` of `s` ends, and whether
/// the scan ran past the end of `s` (a string literal left open at a final
/// backslash).
fn scan_operand(s: &Vec<char>, start: usize) -> (r: (usize, bool))
    requires
        start < s@.len(),
    ensures
        r.1 ==> operand_end(s@, start as int) == s@.len() + 1,
        !r.1 ==> operand_end(s@, start as int) == r.0 && start <= r.0 <= s@.len(),
{
    let mut pos: usize = start;
    let mut dp: i128 = 0;
    let mut db: i128 = 0;
    let mut ins = false;
    let mut oe: usize = start;
        while pos < s.len()
            invariant
                start <= pos,
                pos <= s.len(),
                start <= oe <= pos,
                -(pos as int) <= dp <= pos,
                -(pos as int) <= db <= pos,
                operand_end(s@, start as int) == operand_scan(s@, start as int, pos as int, dp as int, db as int, ins, oe as int),
            ensures
                operand_end(s@, start as int) == pos as int,
            decreases s.len() - pos,
        {
            let c = s[pos];
            let top = dp == 0 && db == 0;
            if ins {
                if c == '\\' {
                    if pos + 1 >= s.len() {
                        assert(operand_scan(s@, start as int, pos + 2, dp as int, db as int, ins, oe as int) == pos + 2);
                        assert(operand_scan(s@, start as int, pos as int, dp as int, db as int, ins, oe as int) == s@.len() + 1);
                        return (s.len(), true);
                    }
                    pos = pos + 2;
                    continue;
                }
                if c == '"' {
                    ins = false;
                }
                pos = pos + 1;
                continue;
            }
            if c == '"' {
                ins = true;
                pos = pos + 1;
            } else if c == '(' {
                dp = dp + 1;
                pos = pos + 1;
            } else if c == ')' {
                if top {
                    break;
                }
                dp = dp - 1;
                pos = pos + 1;
                if dp == 0 && db == 0 {
                    oe = pos;
                }
            } else if c == '[' {
                db = db + 1;
                pos = pos + 1;
            } else if c == ']' {
                if top {
                    break;
                }
                db = db - 1;
                pos = pos + 1;
                if dp == 0 && db == 0 {
                    oe = pos;
                }
            } else if c == ',' || c == ';' || c == '+' || c == '*' || c == '/' || c == '%' || c == '<'
                || c == '>' || c == '=' || c == '&' || c == '|' || c == '^' {
                if top {
                    break;
                }
                pos = pos + 1;
            } else if c == '-' || c == '!' || c == '~' {
                if top && oe > start {
                    break;
                }
                pos = pos + 1;
            } else {
                pos = pos + 1;
                oe = pos;
            }
        }
    (pos, false)
}


/// The float-cast distribution of `(f32)(expr)`: scanning `e` from `i` at
/// parenthesis depth `depth`, the operand since `last` is put, trimmed, with
/// ` as TYPE` before each top-level operator (an empty one is dropped).
pub open spec fn fd_scan(e: Seq<char>, i: int, depth: int, last: int, ty: Seq<char>) -> Seq<char>
    decreases e.len() - i,
{
    if i < 0 || i >= e.len() {
        let op = trim(e.subrange(last, e.len() as int));
        if op.len() > 0 {
            op + " as "@ + ty
        } else {
            Seq::empty()
        }
    } else {
        let c = e[i];
        if c == '(' {
            fd_scan(e, i + 1, depth + 1, last, ty)
        } else if c == ')' {
            fd_scan(e, i + 1, depth - 1, last, ty)
        } else if arith_op(c) && depth == 0 {
            let op = trim(e.subrange(last, i));
            (if op.len() > 0 {
                op + " as "@ + ty
            } else {
                Seq::empty()
            }) + seq![c] + fd_scan(e, i + 1, depth, i + 1, ty)
        } else {
            fd_scan(e, i + 1, depth, last, ty)
        }
    }
}

/// The pattern of a float cast of a parenthesized expression.
pub open spec fn float_cast_pat() -> Seq<char> {
    r"\((f32|f64)\)\s*\(([^)]+)\)"@
}

/// The pattern of a cast head `(type)`.
pub open spec fn cast_head_pat() -> Seq<char> {
    r"\((i8|i16|i32|i64|u8|u16|u32|u64|usize|isize|f32|f64|bool|char)\)\s*"@
}

/// The type of the cast head found at the start of `s`, read again there.
pub open spec fn head_type(s: Seq<char>) -> Option<Seq<char>> {
    match regex_scan(cast_head_pat(), s) {
        Some((g, m)) => if m.len() > 0 && has_grp(m[0], 1) {
            Some(grp(m[0], 1))
        } else {
            None
        },
        None => None,
    }
}

/// The replacements `(start, end, text)` for the first `k` cast heads `m`
/// (pieces `g`) of `r`: `operand as type` for each head with a type and a
/// non-empty operand (one whose scan runs past the text is left alone).
pub open spec fn cast_reps(r: Seq<char>, g: Seq<Seq<char>>, m: Seq<Seq<Option<Seq<char>>>>, k: int) -> Seq<(int, int, Seq<char>)>
    decreases k,
{
    if k <= 0 {
        Seq::empty()
    } else {
        let prev = cast_reps(r, g, m, k - 1);
        let st = match_start(g, m, k - 1);
        let en = match_end(g, whole(m), k - 1);
        match head_type(r.subrange(st, r.len() as int)) {
            None => prev,
            Some(ty) => if operand_end(r, en) != en && operand_end(r, en) > r.len() {
                prev
            } else {
                match cast_operand(r, en) {
                    Some((op, oe)) => if op.len() > 0 {
                        prev.push((st, oe, op + " as "@ + ty))
                    } else {
                        prev
                    },
                    None => prev,
                }
            },
        }
    }
}

/// `s` with the replacements applied from the last to the first (one whose
/// range does not lie in the text is skipped).
pub open spec fn apply_reps(s: Seq<char>, reps: Seq<(int, int, Seq<char>)>) -> Seq<char>
    decreases reps.len(),
{
    if reps.len() == 0 {
        s
    } else {
        let (st, en, t) = reps.last();
        let s2 = if 0 <= st <= en <= s.len() {
            s.subrange(0, st) + t + s.subrange(en, s.len() as int)
        } else {
            s
        };
        apply_reps(s2, reps.drop_last())
    }
}

/// The casts of a function body: `(f32)(a / b)` as `a as f32/b as f32`,
/// then `(type)operand` as `(operand) as type`.
pub open spec fn rule_cast_body(body: Seq<char>) -> Result<Seq<char>, TranspileErrorView> {
    match regex_scan(float_cast_pat(), body) {
        None => Err(TranspileErrorView::TransformError(regex_error(float_cast_pat()))),
        Some((g, m)) => {
            let r1 = splice(g, m.map_values(|c: Seq<Option<Seq<char>>>| fd_scan(grp(c, 2), 0, 0, 0, grp(c, 1))));
            match regex_scan(cast_head_pat(), r1) {
                None => Err(TranspileErrorView::TransformError(regex_error(cast_head_pat()))),
                Some((g2, m2)) => Ok(apply_reps(r1, cast_reps(r1, g2, m2, m2.len() as int))),
            }
        },
    }
}

/// The float-cast distribution of one expression.
fn float_distribute(e: &Vec<char>, ty: &Vec<char>) -> (r: Vec<char>)
    ensures
        r@ == fd_scan(e@, 0, 0, 0, ty@),
{
    let mut out: Vec<char> = Vec::new();
    let mut depth: i128 = 0;
    let mut last: usize = 0;
    let mut i: usize = 0;
    while i < e.len()
        invariant
            0 <= last <= i <= e.len(),
            -(i as int) <= depth <= i,
            fd_scan(e@, 0, 0, 0, ty@) == out@ + fd_scan(e@, i as int, depth as int, last as int, ty@),
        decreases e.len() - i,
    {
        let c = e[i];
        let ghost o0 = out@;
        if c == '(' {
            depth = depth + 1;
        } else if c == ')' {
            depth = depth - 1;
        } else if (c == '+' || c == '-' || c == '*' || c == '/') && depth == 0 {
            let op = trim_vec(&sub_vec(e, last, i));
            if op.len() > 0 {
                append_vec(&mut out, &op);
                push_str(&mut out, " as ");
                append_vec(&mut out, ty);
            }
            out.push(c);
            proof {
                let opv = trim(e@.subrange(last as int, i as int));
                let head = if opv.len() > 0 { opv + " as "@ + ty@ } else { Seq::<char>::empty() };
                assert(out@ =~= o0 + head + seq![c]);
            }
            last = i + 1;
        }
        i = i + 1;
    }
    let op = trim_vec(&sub_vec(e, last, e.len()));
    if op.len() > 0 {
        append_vec(&mut out, &op);
        push_str(&mut out, " as ");
        append_vec(&mut out, ty);
    }
    out
}

/// `s` with the replacements applied from the last to the first.
fn apply_replacements(s: Vec<char>, reps: &Vec<(usize, usize, Vec<char>)>) -> (r: Vec<char>)
    ensures
        r@ == apply_reps(s@, reps@.map_values(|p: (usize, usize, Vec<char>)| (p.0 as int, p.1 as int, p.2@))),
{
    let ghost rv = reps@.map_values(|p: (usize, usize, Vec<char>)| (p.0 as int, p.1 as int, p.2@));
    let ghost s0 = s@;
    let mut cur = s;
    let mut k: usize = reps.len();
    assert(rv.subrange(0, k as int) =~= rv);
    while k > 0
        invariant
            k <= reps.len(),
            rv == reps@.map_values(|p: (usize, usize, Vec<char>)| (p.0 as int, p.1 as int, p.2@)),
            apply_reps(s0, rv) == apply_reps(cur@, rv.subrange(0, k as int)),
        decreases k,
    {
        let ghost sub = rv.subrange(0, k as int);
        assert(sub.last() == rv[k - 1]);
        assert(sub.drop_last() =~= rv.subrange(0, k - 1));
        let st = reps[k - 1].0;
        let en = reps[k - 1].1;
        if st <= en && en <= cur.len() {
            let mut next = sub_vec(&cur, 0, st);
            append_vec(&mut next, &reps[k - 1].2);
            append_vec(&mut next, &sub_vec(&cur, en, cur.len()));
            cur = next;
        }
        k = k - 1;
    }
    cur
}

impl Translator {
    /// The casts of a function body: a float cast of a parenthesized
    /// expression is put on each operand; any other `(type)operand` becomes
    /// `(operand) as type`.
    pub fn transform_type_cast_in_body(&self, body: &str) -> (r: Result<String, TranspileError>)
        ensures
            result_view(r) == rule_cast_body(body@),
    {
        let (g, ms) = match regex_search(r"\((f32|f64)\)\s*\(([^)]+)\)", body) {
            Ok(x) => x,
            Err(m) => {
                return Err(TranspileError::TransformError(m));
            },
        };
        let ghost mv = matches_view(ms@);
        let mut reps: Vec<Vec<char>> = Vec::new();
        let mut i: usize = 0;
        while i < ms.len()
            invariant
                0 <= i <= ms.len(),
                mv == matches_view(ms@),
                reps@.len() == i,
                forall|k: int| 0 <= k < i ==> #[trigger] reps@[k]@ == fd_scan(grp(mv[k], 2), 0, 0, 0, grp(mv[k], 1)),
            decreases ms.len() - i,
        {
            assert(mv[i as int] == groups_view(ms@[i as int]));
            reps.push(float_distribute(&group(&ms[i], 2), &group(&ms[i], 1)));
            i = i + 1;
        }
        assert(vviews(reps@) =~= mv.map_values(|c: Seq<Option<Seq<char>>>| fd_scan(grp(c, 2), 0, 0, 0, grp(c, 1))));
        let r1v = splice_texts(&g, &reps);
        let r1 = string_of(&r1v);
        let (g2, m2) = match regex_search(r"\((i8|i16|i32|i64|u8|u16|u32|u64|usize|isize|f32|f64|bool|char)\)\s*", r1.as_str()) {
            Ok(x) => x,
            Err(m) => {
                return Err(TranspileError::TransformError(m));
            },
        };
        let ends = match_ends(&g2, &m2, r1.as_str());
        let ghost gv = strings(g2@);
        let ghost mv2 = matches_view(m2@);
        let mut cr: Vec<(usize, usize, Vec<char>)> = Vec::new();
        let mut k: usize = 0;
        while k < m2.len()
            invariant
                0 <= k <= m2.len(),
                r1v@ == r1@,
                gv == strings(g2@),
                mv2 == matches_view(m2@),
                ends@.len() == m2@.len(),
                forall|j: int| 0 <= j < m2@.len() ==> #[trigger] ends@[j] == match_end(gv, whole(mv2), j),
                forall|j: int| 0 <= j < m2@.len() ==> ends@[j] <= r1@.len(),
                cr@.map_values(|p: (usize, usize, Vec<char>)| (p.0 as int, p.1 as int, p.2@)) == cast_reps(r1@, gv, mv2, k as int),
            decreases m2.len() - k,
        {
            assert(mv2[k as int] == groups_view(m2@[k as int]));
            assert(whole(mv2)[k as int] == grp(mv2[k as int], 0));
            proof {
                crate::pattern::lemma_match_end_ge(gv, whole(mv2), k as int);
            }
            let en = ends[k];
            let st = en - group(&m2[k], 0).len();
            let ghost c0 = cr@.map_values(|p: (usize, usize, Vec<char>)| (p.0 as int, p.1 as int, p.2@));
            let suffix = string_of_range(&r1v, st, r1v.len());
            let ty = match regex_search(r"\((i8|i16|i32|i64|u8|u16|u32|u64|usize|isize|f32|f64|bool|char)\)\s*", suffix.as_str()) {
                Ok((_gs, hs)) => {
                    if hs.len() > 0 && has_group(&hs[0], 1) {
                        assert(matches_view(hs@)[0] == groups_view(hs@[0]));
                        Some(group(&hs[0], 1))
                    } else {
                        None
                    }
                },
                Err(_) => None,
            };
            assert(ty matches Some(t) ==> head_type(r1@.subrange(st as int, r1@.len() as int)) == Some(t@));
            assert(ty is None ==> head_type(r1@.subrange(st as int, r1@.len() as int)) is None);
            match ty {
                Some(t) => {
                    let fits = if en < r1v.len() {
                        !scan_operand(&r1v, en).1
                    } else {
                        true
                    };
                    if fits {
                        match self.cast_operand_at(r1.as_str(), en) {
                            Some((op, oe)) => {
                                let opv = chars_of(op.as_str());
                                if opv.len() > 0 {
                                    let mut rep: Vec<char> = Vec::new();
                                    append_vec(&mut rep, &opv);
                                    push_str(&mut rep, " as ");
                                    append_vec(&mut rep, &t);
                                    cr.push((st, oe, rep));
                                    assert(cr@.map_values(|p: (usize, usize, Vec<char>)| (p.0 as int, p.1 as int, p.2@)) =~= c0.push((st as int, oe as int, op@ + " as "@ + t@)));
                                }
                            },
                            None => {},
                        }
                    }
                },
                None => {},
            }
            k = k + 1;
        }
        let out = apply_replacements(r1v, &cr);
        Ok(string_of(&out))
    }
}


/// The pattern of a function signature up to its `{`.
pub open spec fn fn_sig_pat() -> Seq<char> {
    r"fn\s+[a-zA-Z_][a-zA-Z0-9_]*\s*\([^)]*\)\s*(?:->\s*[^{]+)?\s*\{"@
}

/// Going through the first `k` signatures `m` (pieces `g`) of `src`: the
/// text so far, where the copied source ends, and whether an unclosed body
/// stopped the walk. Signatures are kept, bodies get [`rule_cast_body`]; a
/// signature that lies inside an earlier body is passed over.
pub open spec fn cast_fold(src: Seq<char>, g: Seq<Seq<char>>, m: Seq<Seq<Option<Seq<char>>>>, k: int) -> Result<(Seq<char>, int, bool), TranspileErrorView>
    decreases k,
{
    if k <= 0 {
        Ok((Seq::empty(), 0, false))
    } else {
        match cast_fold(src, g, m, k - 1) {
            Err(e) => Err(e),
            Ok((out, last, stop)) => {
                let st = match_start(g, m, k - 1);
                let en = match_end(g, whole(m), k - 1);
                if stop || st < last {
                    Ok((out, last, stop))
                } else {
                    let head = out + src.subrange(last, st) + trim_end(strip_trail(grp(m[k - 1], 0), '{')) + " {"@;
                    let (p, d) = depth_end(src, en, 1);
                    if d == 0 {
                        match rule_cast_body(src.subrange(en, p - 1)) {
                            Err(e) => Err(e),
                            Ok(b) => Ok((head + b + "}"@, p, false)),
                        }
                    } else {
                        Ok((head + src.subrange(en, src.len() as int), src.len() as int, true))
                    }
                }
            },
        }
    }
}

/// C-style casts in function bodies (signatures are kept as written).
pub open spec fn rule_type_cast(src: Seq<char>) -> Result<Seq<char>, TranspileErrorView> {
    match regex_scan(fn_sig_pat(), src) {
        None => Err(TranspileErrorView::TransformError(regex_error(fn_sig_pat()))),
        Some((g, m)) => match cast_fold(src, g, m, m.len() as int) {
            Err(e) => Err(e),
            Ok((out, last, stop)) => Ok(out + src.subrange(last, src.len() as int)),
        },
    }
}

proof fn lemma_cast_fold_err(src: Seq<char>, g: Seq<Seq<char>>, m: Seq<Seq<Option<Seq<char>>>>, k: int, n: int)
    requires
        0 <= k <= n,
        cast_fold(src, g, m, k) is Err,
    ensures
        cast_fold(src, g, m, n) == cast_fold(src, g, m, k),
    decreases n - k,
{
    if k < n {
        lemma_cast_fold_err(src, g, m, k, n - 1);
    }
}

impl Translator {
    /// C-style casts `(type)expr` as Rust `as` casts, inside function bodies
    /// only: signatures keep the types their author wrote.
    pub fn transform_type_cast(&self, source: &str) -> (r: Result<String, TranspileError>)
        ensures
            result_view(r) == rule_type_cast(source@),
    {
        let (g, ms) = match regex_search(r"fn\s+[a-zA-Z_][a-zA-Z0-9_]*\s*\([^)]*\)\s*(?:->\s*[^{]+)?\s*\{", source) {
            Ok(x) => x,
            Err(m) => {
                return Err(TranspileError::TransformError(m));
            },
        };
        let sv = chars_of(source);
        let ends = match_ends(&g, &ms, source);
        let ghost gv = strings(g@);
        let ghost mv = matches_view(ms@);
        let mut out: Vec<char> = Vec::new();
        let mut last: usize = 0;
        let mut stop = false;
        let mut k: usize = 0;
        while k < ms.len()
            invariant
                0 <= k <= ms.len(),
                sv@ == source@,
                gv == strings(g@),
                mv == matches_view(ms@),
                ends@.len() == ms@.len(),
                forall|j: int| 0 <= j < ms@.len() ==> #[trigger] ends@[j] == match_end(gv, whole(mv), j),
                forall|j: int| 0 <= j < ms@.len() ==> ends@[j] <= source@.len(),
                last <= sv.len(),
                regex_scan(fn_sig_pat(), source@) == Some((gv, mv)),
                cast_fold(source@, gv, mv, k as int) == Ok::<(Seq<char>, int, bool), TranspileErrorView>((out@, last as int, stop)),
            decreases ms.len() - k,
        {
            assert(mv[k as int] == groups_view(ms@[k as int]));
            assert(whole(mv)[k as int] == grp(mv[k as int], 0));
            proof {
                crate::pattern::lemma_match_end_ge(gv, whole(mv), k as int);
            }
            let en = ends[k];
            let w = group(&ms[k], 0);
            let st = en - w.len();
            if !stop && st >= last {
                append_vec(&mut out, &sub_vec(&sv, last, st));
                let x = strip_trail_vec(&w, '{');
                let xb = trim_end_bound(&x, 0, x.len());
                assert(x@.subrange(0, x@.len() as int) =~= x@);
                append_vec(&mut out, &sub_vec(&x, 0, xb));
                push_str(&mut out, " {");
                let (p, d) = scan_depth(&sv, en);
                if d == 0 {
                    let body = string_of_range(&sv, en, p - 1);
                    match self.transform_type_cast_in_body(body.as_str()) {
                        Ok(b) => {
                            push_str(&mut out, b.as_str());
                            push_str(&mut out, "}");
                            last = p;
                        },
                        Err(e) => {
                            proof {
                                lemma_cast_fold_err(source@, gv, mv, k + 1, mv.len() as int);
                            }
                            return Err(e);
                        },
                    }
                } else {
                    append_vec(&mut out, &sub_vec(&sv, en, sv.len()));
                    last = sv.len();
                    stop = true;
                }
            }
            k = k + 1;
        }
        append_vec(&mut out, &sub_vec(&sv, last, sv.len()));
        Ok(string_of(&out))
    }
}


/// The pattern of one array dimension.
pub open spec fn dim_group_pat() -> Seq<char> {
    r"\[([a-zA-Z0-9_]+)\]"@
}

/// The dimensions `[d1][d2]...` of `s` in Rust (constants `as usize`).
pub open spec fn dims_of(s: Seq<char>) -> Seq<Seq<char>> {
    match regex_scan(dim_group_pat(), s) {
        Some((g, m)) => m.map_values(|c: Seq<Option<Seq<char>>>| dim_text(grp(c, 1))),
        None => Seq::empty(),
    }
}

/// Array dimensions as Rust nesting around `base`, the last outermost.
pub open spec fn wrap_dims_last(base: Seq<char>, ds: Seq<Seq<char>>) -> Seq<char>
    decreases ds.len(),
{
    if ds.len() == 0 {
        base
    } else {
        "["@ + wrap_dims_last(base, ds.drop_last()) + "; "@ + ds.last() + "]"@
    }
}

/// The zero of a primitive type.
pub open spec fn zero_lit(t: Seq<char>) -> Seq<char> {
    if t == "f32"@ || t == "f64"@ {
        "0.0"@
    } else if t == "bool"@ {
        "false"@
    } else {
        "0"@
    }
}

/// Braces as brackets, semicolons dropped.
pub open spec fn bracketed(s: Seq<char>) -> Seq<char>
    decreases s.len(),
{
    if s.len() == 0 {
        Seq::empty()
    } else {
        let c = s.last();
        bracketed(s.drop_last()) + (if c == '{' {
            seq!['[']
        } else if c == '}' {
            seq![']']
        } else if c == ';' {
            Seq::<char>::empty()
        } else {
            seq![c]
        })
    }
}

/// A multi-dimensional array declaration with initializer, in Rust.
pub open spec fn rep_multi_init(c: Seq<Option<Seq<char>>>) -> Seq<char> {
    let ds = dims_of(grp(c, 2));
    let ty = wrap_dims(grp(c, 1), ds);
    if trim(grp(c, 4)) == "0"@ {
        "let mut "@ + grp(c, 3) + ": "@ + ty + " = "@ + wrap_dims_last(zero_lit(grp(c, 1)), ds) + ";"@
    } else {
        "let mut "@ + grp(c, 3) + ": "@ + ty + " = ["@ + trim(bracketed(grp(c, 4))) + "];"@
    }
}

/// A multi-dimensional array declaration without initializer, in Rust.
pub open spec fn rep_multi_noinit(c: Seq<Option<Seq<char>>>) -> Seq<char> {
    "let mut "@ + grp(c, 3) + ": "@ + wrap_dims(grp(c, 1), dims_of(grp(c, 2))) + ";"@
}

/// The pattern of a multi-dimensional array declaration with initializer.
pub open spec fn multi_init_pat() -> Seq<char> {
    r"(?m)\b(i8|i16|i32|i64|u8|u16|u32|u64|f32|f64|bool)((?:\[(?:\d+|[a-zA-Z_][a-zA-Z0-9_]*)\]){2,})\s+([a-zA-Z_][a-zA-Z0-9_]*)\s*=\s*\{([\s\S]*?)\}\s*;"@
}

/// The pattern of a multi-dimensional array declaration without one.
pub open spec fn multi_noinit_pat() -> Seq<char> {
    r"(?m)\b(i8|i16|i32|i64|u8|u16|u32|u64|f32|f64|bool)((?:\[(?:\d+|[a-zA-Z_][a-zA-Z0-9_]*)\]){2,})\s+([a-zA-Z_][a-zA-Z0-9_]*)\s*;"@
}

/// Multi-dimensional array declarations in Rust.
pub open spec fn rule_multi_array(src: Seq<char>) -> Result<Seq<char>, TranspileErrorView> {
    match regex_scan(multi_init_pat(), src) {
        None => Err(TranspileErrorView::TransformError(regex_error(multi_init_pat()))),
        Some((g, m)) => if !regex_valid(dim_group_pat()) {
            Err(TranspileErrorView::TransformError(regex_error(dim_group_pat())))
        } else {
            let r1 = splice(g, m.map_values(|c: Seq<Option<Seq<char>>>| rep_multi_init(c)));
            match regex_scan(multi_noinit_pat(), r1) {
                None => Err(TranspileErrorView::TransformError(regex_error(multi_noinit_pat()))),
                Some((g2, m2)) => Ok(splice(g2, m2.map_values(|c: Seq<Option<Seq<char>>>| rep_multi_noinit(c)))),
            }
        },
    }
}

/// A one-dimensional array declaration with initializer, in Rust.
pub open spec fn rep_array_init(c: Seq<Option<Seq<char>>>) -> Seq<char> {
    let ds = dims_of(grp(c, 2));
    let t = grp(c, 1);
    if trim(grp(c, 4)) == "0"@ {
        "let mut "@ + grp(c, 3) + ": "@ + wrap_dims_last(t, ds) + " = "@ + wrap_dims_last(zero_lit(t), ds) + ";"@
    } else if ds.len() > 1 {
        "let mut "@ + grp(c, 3) + ": "@ + grp(c, 2) + ";"@
    } else {
        "let mut "@ + grp(c, 3) + ": ["@ + t + "; "@ + (if ds.len() > 0 { ds[0] } else { Seq::empty() }) + "] = ["@ + grp(c, 4) + "];"@
    }
}

/// A one-dimensional array declaration without initializer, in Rust.
pub open spec fn rep_array_noinit(c: Seq<Option<Seq<char>>>) -> Seq<char> {
    "let mut "@ + grp(c, 3) + ": ["@ + grp(c, 1) + "; "@ + dim_text(grp(c, 2)) + "] = ["@ + zero_lit(grp(c, 1)) + "; "@
        + dim_text(grp(c, 2)) + "];"@
}

/// The pattern of an array declaration with a braced initializer.
pub open spec fn array_init_pat() -> Seq<char> {
    r"\b(i8|i16|i32|i64|u8|u16|u32|u64|f32|f64|bool)((?:\[[a-zA-Z0-9_]+\])+)\s+([a-zA-Z_][a-zA-Z0-9_]*)\s*=\s*\{([^}]+)\};"@
}

/// The pattern of a one-dimensional array declaration without one.
pub open spec fn array_noinit_pat() -> Seq<char> {
    r"\b(i8|i16|i32|i64|u8|u16|u32|u64|f32|f64|bool)\[([a-zA-Z0-9_]+)\]\s+([a-zA-Z_][a-zA-Z0-9_]*)\s*;"@
}

/// Static array declarations in Rust.
pub open spec fn rule_array_decls(src: Seq<char>) -> Result<Seq<char>, TranspileErrorView> {
    match regex_scan(array_init_pat(), src) {
        None => Err(TranspileErrorView::TransformError(regex_error(array_init_pat()))),
        Some((g, m)) => {
            let r1 = splice(g, m.map_values(|c: Seq<Option<Seq<char>>>| rep_array_init(c)));
            match regex_scan(array_noinit_pat(), r1) {
                None => Err(TranspileErrorView::TransformError(regex_error(array_noinit_pat()))),
                Some((g2, m2)) => Ok(splice(g2, m2.map_values(|c: Seq<Option<Seq<char>>>| rep_array_noinit(c)))),
            }
        },
    }
}

/// The Rust dimensions of `s`.
fn dims_list(t: &Translator, s: &Vec<char>) -> (r: Vec<Vec<char>>)
    ensures
        vviews(r@) == dims_of(s@),
{
    match regex_search(r"\[([a-zA-Z0-9_]+)\]", string_of(s).as_str()) {
        Ok((_g, ms)) => {
            let ghost mv = matches_view(ms@);
            let mut ds: Vec<Vec<char>> = Vec::new();
            let mut i: usize = 0;
            while i < ms.len()
                invariant
                    0 <= i <= ms.len(),
                    mv == matches_view(ms@),
                    ds@.len() == i,
                    forall|k: int| 0 <= k < i ==> #[trigger] ds@[k]@ == dim_text(grp(mv[k], 1)),
                decreases ms.len() - i,
            {
                assert(mv[i as int] == groups_view(ms@[i as int]));
                ds.push(chars_of(t.dim_expr(string_of(&group(&ms[i], 1)).as_str()).as_str()));
                i = i + 1;
            }
            assert(vviews(ds@) =~= mv.map_values(|c: Seq<Option<Seq<char>>>| dim_text(grp(c, 1))));
            ds
        },
        Err(_) => Vec::new(),
    }
}

/// `base` wrapped in the dimensions `ds`, the first outermost.
fn wrap_dims_vec(base: &Vec<char>, ds: &Vec<Vec<char>>) -> (r: Vec<char>)
    ensures
        r@ == wrap_dims(base@, vviews(ds@)),
{
    let ghost dv = vviews(ds@);
    let mut ty = sub_vec_copy(base);
    let mut k: usize = ds.len();
    assert(dv.subrange(dv.len() as int, dv.len() as int) =~= Seq::<Seq<char>>::empty());
    while k > 0
        invariant
            k <= ds.len(),
            dv == vviews(ds@),
            ty@ == wrap_dims(base@, dv.subrange(k as int, dv.len() as int)),
        decreases k,
    {
        let ghost suf = dv.subrange(k - 1, dv.len() as int);
        assert(suf.drop_first() =~= dv.subrange(k as int, dv.len() as int));
        assert(suf[0] == ds@[k - 1]@);
        let mut n: Vec<char> = Vec::new();
        push_str(&mut n, "[");
        append_vec(&mut n, &ty);
        push_str(&mut n, "; ");
        append_vec(&mut n, &ds[k - 1]);
        push_str(&mut n, "]");
        ty = n;
        k = k - 1;
    }
    assert(dv.subrange(0, dv.len() as int) =~= dv);
    ty
}

/// `base` wrapped in the dimensions `ds`, the last outermost.
fn wrap_dims_rev(base: &Vec<char>, ds: &Vec<Vec<char>>) -> (r: Vec<char>)
    ensures
        r@ == wrap_dims_last(base@, vviews(ds@)),
{
    let ghost dv = vviews(ds@);
    let mut ty = sub_vec_copy(base);
    let mut k: usize = 0;
    assert(dv.subrange(0, 0) =~= Seq::<Seq<char>>::empty());
    while k < ds.len()
        invariant
            k <= ds.len(),
            dv == vviews(ds@),
            ty@ == wrap_dims_last(base@, dv.subrange(0, k as int)),
        decreases ds.len() - k,
    {
        let ghost pre = dv.subrange(0, k + 1);
        assert(pre.drop_last() =~= dv.subrange(0, k as int));
        assert(pre.last() == ds@[k as int]@);
        let mut n: Vec<char> = Vec::new();
        push_str(&mut n, "[");
        append_vec(&mut n, &ty);
        push_str(&mut n, "; ");
        append_vec(&mut n, &ds[k]);
        push_str(&mut n, "]");
        ty = n;
        k = k + 1;
    }
    assert(dv.subrange(0, dv.len() as int) =~= dv);
    ty
}

/// The zero of primitive type `t`.
fn zero_of(t: &Vec<char>) -> (r: &'static str)
    ensures
        r@ == zero_lit(t@),
{
    if same_text(t, "f32") || same_text(t, "f64") {
        "0.0"
    } else if same_text(t, "bool") {
        "false"
    } else {
        "0"
    }
}

/// Braces as brackets, semicolons dropped.
fn bracketed_vec(v: &Vec<char>) -> (r: Vec<char>)
    ensures
        r@ == bracketed(v@),
{
    let mut out: Vec<char> = Vec::new();
    let mut i: usize = 0;
    assert(v@.subrange(0, 0) =~= Seq::<char>::empty());
    while i < v.len()
        invariant
            0 <= i <= v.len(),
            out@ == bracketed(v@.subrange(0, i as int)),
        decreases v.len() - i,
    {
        assert(v@.subrange(0, i + 1).drop_last() =~= v@.subrange(0, i as int));
        let c = v[i];
        if c == '{' {
            out.push('[');
        } else if c == '}' {
            out.push(']');
        } else if c != ';' {
            out.push(c);
        }
        assert(out@ =~= bracketed(v@.subrange(0, i + 1)));
        i = i + 1;
    }
    assert(v@.subrange(0, v@.len() as int) =~= v@);
    out
}

impl Translator {
    /// One multi-dimensional declaration with initializer, in Rust.
    fn multi_init_of(&self, c: &Vec<Option<String>>) -> (r: Vec<char>)
        ensures
            r@ == rep_multi_init(groups_view(*c)),
    {
        let t = group(c, 1);
        let ds = dims_list(self, &group(c, 2));
        let ty = wrap_dims_vec(&t, &ds);
        let el = group(c, 4);
        let mut out: Vec<char> = Vec::new();
        push_str(&mut out, "let mut ");
        append_vec(&mut out, &group(c, 3));
        push_str(&mut out, ": ");
        append_vec(&mut out, &ty);
        if same_text(&trim_vec(&el), "0") {
            push_str(&mut out, " = ");
            append_vec(&mut out, &wrap_dims_rev(&chars_of(zero_of(&t)), &ds));
            push_str(&mut out, ";");
        } else {
            push_str(&mut out, " = [");
            append_vec(&mut out, &trim_vec(&bracketed_vec(&el)));
            push_str(&mut out, "];");
        }
        out
    }

    /// One array declaration with a braced initializer, in Rust.
    fn array_init_of(&self, c: &Vec<Option<String>>) -> (r: Vec<char>)
        ensures
            r@ == rep_array_init(groups_view(*c)),
    {
        let t = group(c, 1);
        let ds = dims_list(self, &group(c, 2));
        let el = group(c, 4);
        let mut out: Vec<char> = Vec::new();
        push_str(&mut out, "let mut ");
        append_vec(&mut out, &group(c, 3));
        if same_text(&trim_vec(&el), "0") {
            push_str(&mut out, ": ");
            append_vec(&mut out, &wrap_dims_rev(&t, &ds));
            push_str(&mut out, " = ");
            append_vec(&mut out, &wrap_dims_rev(&chars_of(zero_of(&t)), &ds));
            push_str(&mut out, ";");
        } else if ds.len() > 1 {
            push_str(&mut out, ": ");
            append_vec(&mut out, &group(c, 2));
            push_str(&mut out, ";");
        } else {
            push_str(&mut out, ": [");
            append_vec(&mut out, &t);
            push_str(&mut out, "; ");
            if ds.len() > 0 {
                append_vec(&mut out, &ds[0]);
            }
            push_str(&mut out, "] = [");
            append_vec(&mut out, &el);
            push_str(&mut out, "];");
        }
        out
    }

    /// Multi-dimensional array declarations: `i32[2][3] m = {{..},{..}};`
    /// becomes `let mut m: [[i32; 3]; 2] = [[..],[..]];`, and without an
    /// initializer `let mut m: [[i32; 3]; 2];`.
    pub fn transform_multi_array_decl(&self, source: &str) -> (r: Result<String, TranspileError>)
        ensures
            result_view(r) == rule_multi_array(source@),
    {
        let (g, ms) = match regex_search(r"(?m)\b(i8|i16|i32|i64|u8|u16|u32|u64|f32|f64|bool)((?:\[(?:\d+|[a-zA-Z_][a-zA-Z0-9_]*)\]){2,})\s+([a-zA-Z_][a-zA-Z0-9_]*)\s*=\s*\{([\s\S]*?)\}\s*;", source) {
            Ok(x) => x,
            Err(m) => {
                return Err(TranspileError::TransformError(m));
            },
        };
        match regex_search(r"\[([a-zA-Z0-9_]+)\]", "") {
            Ok(_) => {},
            Err(m) => {
                return Err(TranspileError::TransformError(m));
            },
        }
        let ghost mv = matches_view(ms@);
        let mut reps: Vec<Vec<char>> = Vec::new();
        let mut i: usize = 0;
        while i < ms.len()
            invariant
                0 <= i <= ms.len(),
                mv == matches_view(ms@),
                reps@.len() == i,
                forall|k: int| 0 <= k < i ==> #[trigger] reps@[k]@ == rep_multi_init(mv[k]),
            decreases ms.len() - i,
        {
            assert(mv[i as int] == groups_view(ms@[i as int]));
            reps.push(self.multi_init_of(&ms[i]));
            i = i + 1;
        }
        assert(vviews(reps@) =~= mv.map_values(|c: Seq<Option<Seq<char>>>| rep_multi_init(c)));
        let r1 = string_of(&splice_texts(&g, &reps));
        let (g2, m2) = match regex_search(r"(?m)\b(i8|i16|i32|i64|u8|u16|u32|u64|f32|f64|bool)((?:\[(?:\d+|[a-zA-Z_][a-zA-Z0-9_]*)\]){2,})\s+([a-zA-Z_][a-zA-Z0-9_]*)\s*;", r1.as_str()) {
            Ok(x) => x,
            Err(m) => {
                return Err(TranspileError::TransformError(m));
            },
        };
        let ghost mv2 = matches_view(m2@);
        let mut reps2: Vec<Vec<char>> = Vec::new();
        let mut j: usize = 0;
        while j < m2.len()
            invariant
                0 <= j <= m2.len(),
                mv2 == matches_view(m2@),
                reps2@.len() == j,
                forall|k: int| 0 <= k < j ==> #[trigger] reps2@[k]@ == rep_multi_noinit(mv2[k]),
            decreases m2.len() - j,
        {
            assert(mv2[j as int] == groups_view(m2@[j as int]));
            let c = &m2[j];
            let mut rep: Vec<char> = Vec::new();
            push_str(&mut rep, "let mut ");
            append_vec(&mut rep, &group(c, 3));
            push_str(&mut rep, ": ");
            append_vec(&mut rep, &wrap_dims_vec(&group(c, 1), &dims_list(self, &group(c, 2))));
            push_str(&mut rep, ";");
            reps2.push(rep);
            j = j + 1;
        }
        assert(vviews(reps2@) =~= mv2.map_values(|c: Seq<Option<Seq<char>>>| rep_multi_noinit(c)));
        Ok(string_of(&splice_texts(&g2, &reps2)))
    }

    /// Static array declarations: `i32[5] a = {1, 2};` becomes
    /// `let mut a: [i32; 5] = [1, 2];` (`{0}` zero-fills), and `i32[5] a;`
    /// becomes `let mut a: [i32; 5];`.
    pub fn transform_array_declarations(&self, source: &str) -> (r: Result<String, TranspileError>)
        ensures
            result_view(r) == rule_array_decls(source@),
    {
        let (g, ms) = match regex_search(r"\b(i8|i16|i32|i64|u8|u16|u32|u64|f32|f64|bool)((?:\[[a-zA-Z0-9_]+\])+)\s+([a-zA-Z_][a-zA-Z0-9_]*)\s*=\s*\{([^}]+)\};", source) {
            Ok(x) => x,
            Err(m) => {
                return Err(TranspileError::TransformError(m));
            },
        };
        let ghost mv = matches_view(ms@);
        let mut reps: Vec<Vec<char>> = Vec::new();
        let mut i: usize = 0;
        while i < ms.len()
            invariant
                0 <= i <= ms.len(),
                mv == matches_view(ms@),
                reps@.len() == i,
                forall|k: int| 0 <= k < i ==> #[trigger] reps@[k]@ == rep_array_init(mv[k]),
            decreases ms.len() - i,
        {
            assert(mv[i as int] == groups_view(ms@[i as int]));
            reps.push(self.array_init_of(&ms[i]));
            i = i + 1;
        }
        assert(vviews(reps@) =~= mv.map_values(|c: Seq<Option<Seq<char>>>| rep_array_init(c)));
        let r1 = string_of(&splice_texts(&g, &reps));
        let (g2, m2) = match regex_search(r"\b(i8|i16|i32|i64|u8|u16|u32|u64|f32|f64|bool)\[([a-zA-Z0-9_]+)\]\s+([a-zA-Z_][a-zA-Z0-9_]*)\s*;", r1.as_str()) {
            Ok(x) => x,
            Err(m) => {
                return Err(TranspileError::TransformError(m));
            },
        };
        let ghost mv2 = matches_view(m2@);
        let mut reps2: Vec<Vec<char>> = Vec::new();
        let mut j: usize = 0;
        while j < m2.len()
            invariant
                0 <= j <= m2.len(),
                mv2 == matches_view(m2@),
                reps2@.len() == j,
                forall|k: int| 0 <= k < j ==> #[trigger] reps2@[k]@ == rep_array_noinit(mv2[k]),
            decreases m2.len() - j,
        {
            assert(mv2[j as int] == groups_view(m2@[j as int]));
            let c = &m2[j];
            let mut rep: Vec<char> = Vec::new();
            push_str(&mut rep, "let mut ");
            append_vec(&mut rep, &group(c, 3));
            push_str(&mut rep, ": [");
            append_vec(&mut rep, &group(c, 1));
            push_str(&mut rep, "; ");
            let dim = self.dim_expr(string_of(&group(c, 2)).as_str());
            push_str(&mut rep, dim.as_str());
            push_str(&mut rep, "] = [");
            push_str(&mut rep, zero_of(&group(c, 1)));
            push_str(&mut rep, "; ");
            push_str(&mut rep, dim.as_str());
            push_str(&mut rep, "];");
            reps2.push(rep);
            j = j + 1;
        }
        assert(vviews(reps2@) =~= mv2.map_values(|c: Seq<Option<Seq<char>>>| rep_array_noinit(c)));
        Ok(string_of(&splice_texts(&g2, &reps2)))
    }
}


/// How many bytes UTF-8 takes for `c`.
pub open spec fn utf8_len(c: char) -> int {
    if '\u{80}' > c {
        1
    } else if '\u{800}' > c {
        2
    } else if '\u{10000}' > c {
        3
    } else {
        4
    }
}

/// Walking back from `j` until `acc` bytes reach 15: where the look-back
/// window before a declaration starts (15 bytes, widened to a whole
/// character).
pub open spec fn back15(s: Seq<char>, j: int, acc: int) -> int
    decreases j,
{
    if j <= 0 || j > s.len() || acc >= 15 {
        j
    } else {
        back15(s, j - 1, acc + utf8_len(s[j - 1]))
    }
}

/// `s` begins with a double quote.
pub open spec fn quoted(s: Seq<char>) -> bool {
    s.len() > 0 && s[0] == '"'
}

/// The declaration with initializer found as match `k` (matches `m`,
/// pieces `g`) of `src`, in Rust: an integer `const` stays a constant,
/// another `const` an immutable binding, a loop variable of a `for` header
/// is kept for the loop rule, a `String` from a literal is owned.
pub open spec fn rep_var_init(src: Seq<char>, g: Seq<Seq<char>>, m: Seq<Seq<Option<Seq<char>>>>, k: int) -> Seq<char> {
    let c = m[k];
    let st = match_start(g, m, k);
    let t = grp(c, 2);
    let v = grp(c, 3);
    let val = trim(grp(c, 4));
    let before = src.subrange(back15(src, st, 0), st);
    if has_grp(c, 1) && val.len() > 0 && all_digits(val) {
        "const "@ + v + ": usize = "@ + val + ";"@
    } else if has_grp(c, 1) {
        if t == "String"@ && quoted(val) {
            "let "@ + v + ": String = "@ + val + ".to_string();"@
        } else {
            "let "@ + v + ": "@ + t + " = "@ + val + ";"@
        }
    } else if contains(before, "for ("@) || contains(before, "for("@) {
        t + " "@ + v + " = "@ + val + ";"@
    } else if t == "String"@ && quoted(val) {
        "let mut "@ + v + ": String = "@ + val + ".to_string();"@
    } else {
        "let mut "@ + v + ": "@ + t + " = "@ + val + ";"@
    }
}

/// One `let mut name: t;` per name of a comma list, one per line.
pub open spec fn decl_lines(names: Seq<Seq<char>>, pre: Seq<char>, post: Seq<char>) -> Seq<char> {
    join(names.map_values(|n: Seq<char>| pre + n + post), "\n"@)
}

/// The pattern of a declaration with initializer.
pub open spec fn var_init_pat() -> Seq<char> {
    r"(?:(const)\s+)?\b(i8|i16|i32|i64|u8|u16|u32|u64|f32|f64|bool|char|String)\s+([a-zA-Z_][a-zA-Z0-9_]*)\s*=\s*([^;]+);"@
}

/// The pattern of a declaration without one.
pub open spec fn var_noinit_pat() -> Seq<char> {
    r"\b(i8|i16|i32|i64|u8|u16|u32|u64|f32|f64|bool|char|String)\s+([a-zA-Z_][a-zA-Z0-9_]*(?:\s*,\s*[a-zA-Z_][a-zA-Z0-9_]*)*)\s*;"@
}

/// Scalar declarations in Rust.
pub open spec fn rule_var_decls(src: Seq<char>) -> Result<Seq<char>, TranspileErrorView> {
    match regex_scan(var_init_pat(), src) {
        None => Err(TranspileErrorView::TransformError(regex_error(var_init_pat()))),
        Some((g, m)) => {
            let r1 = splice(g, Seq::new(m.len(), |k: int| rep_var_init(src, g, m, k)));
            match regex_scan(var_noinit_pat(), r1) {
                None => Err(TranspileErrorView::TransformError(regex_error(var_noinit_pat()))),
                Some((g2, m2)) => Ok(splice(g2, m2.map_values(|c: Seq<Option<Seq<char>>>|
                    decl_lines(nonempty_trimmed(split_on(grp(c, 2), ',')), "let mut "@, ": "@ + grp(c, 1) + ";"@)))),
            }
        },
    }
}

/// `Outer.Inner` as `Outer_Inner`.
pub open spec fn flat_name(s: Seq<char>) -> Seq<char> {
    s.map_values(|c: char| if c == '.' { '_' } else { c })
}

/// `T v = new T(args);` in Rust; a declaration whose types differ is kept.
pub open spec fn rep_new_obj(c: Seq<Option<Seq<char>>>) -> Seq<char> {
    if grp(c, 1) != grp(c, 3) {
        grp(c, 0)
    } else {
        let rt = flat_name(grp(c, 1));
        "let mut "@ + grp(c, 2) + ": "@ + rt + " = "@ + rt + "::new("@ + grp(c, 4) + ");"@
    }
}

/// `T a, b;` in Rust: each a default value, one per line (a primitive type
/// is kept, one declaration per name).
pub open spec fn rep_obj_decl(c: Seq<Option<Seq<char>>>) -> Seq<char> {
    let names = nonempty_trimmed(split_on(grp(c, 2), ','));
    if primitive(grp(c, 1)) {
        decl_lines(names, grp(c, 1) + " "@, ";"@)
    } else {
        let rt = flat_name(grp(c, 1));
        decl_lines(names, "let mut "@, ": "@ + rt + " = "@ + rt + "::default();"@)
    }
}

/// The pattern of an object declaration with `new`.
pub open spec fn new_obj_pat() -> Seq<char> {
    r"\b([A-Z][a-zA-Z0-9_]*(?:\.[A-Z][a-zA-Z0-9_]*)*)\s+([a-z_][a-zA-Z0-9_]*)\s*=\s*new\s+([A-Z][a-zA-Z0-9_]*(?:\.[A-Z][a-zA-Z0-9_]*)*)\s*\(([^)]*)\)\s*;"@
}

/// The pattern of an object declaration without initializer.
pub open spec fn obj_decl_pat() -> Seq<char> {
    r"\b([A-Z][a-zA-Z0-9_]*(?:\.[A-Z][a-zA-Z0-9_]*)*)\s+([a-z_][a-zA-Z0-9_]*(?:\s*,\s*[a-z_][a-zA-Z0-9_]*)*)\s*;"@
}

/// Object declarations in Rust.
pub open spec fn rule_class_inst(src: Seq<char>) -> Result<Seq<char>, TranspileErrorView> {
    match regex_scan(new_obj_pat(), src) {
        None => Err(TranspileErrorView::TransformError(regex_error(new_obj_pat()))),
        Some((g, m)) => {
            let r1 = splice(g, m.map_values(|c: Seq<Option<Seq<char>>>| rep_new_obj(c)));
            regex_rule(obj_decl_pat(), r1, |c: Seq<Option<Seq<char>>>| rep_obj_decl(c))
        },
    }
}

/// The non-empty trimmed pieces of `v` split at commas.
fn comma_names(v: &Vec<char>) -> (r: Vec<Vec<char>>)
    ensures
        vviews(r@) == nonempty_trimmed(split_on(v@, ',')),
{
    let pieces = split_vec(v, ',');
    let ghost ps = vviews(pieces@);
    let mut own: Vec<Vec<char>> = Vec::new();
    let mut i: usize = 0;
    assert(vviews(own@) =~= Seq::<Seq<char>>::empty());
    while i < pieces.len()
        invariant
            0 <= i <= pieces.len(),
            ps == vviews(pieces@),
            vviews(own@) == nonempty_trimmed(ps.subrange(0, i as int)),
        decreases pieces.len() - i,
    {
        let ghost pre = ps.subrange(0, i + 1);
        assert(pre.drop_last() =~= ps.subrange(0, i as int));
        assert(pre.last() == pieces@[i as int]@);
        let p = trim_vec(&pieces[i]);
        if p.len() > 0 {
            let ghost o0 = vviews(own@);
            own.push(p);
            assert(vviews(own@) =~= o0.push(p@));
        }
        i = i + 1;
    }
    assert(ps.subrange(0, pieces.len() as int) =~= ps);
    own
}

/// One line `pre + name + post` per name, joined by line breaks.
fn decl_lines_vec(names: &Vec<Vec<char>>, pre: &Vec<char>, post: &Vec<char>) -> (r: Vec<char>)
    ensures
        r@ == decl_lines(vviews(names@), pre@, post@),
{
    let mut ls: Vec<Vec<char>> = Vec::new();
    let mut i: usize = 0;
    while i < names.len()
        invariant
            0 <= i <= names.len(),
            ls@.len() == i,
            forall|k: int| 0 <= k < i ==> #[trigger] ls@[k]@ == pre@ + names@[k]@ + post@,
        decreases names.len() - i,
    {
        let mut l = sub_vec_copy(pre);
        append_vec(&mut l, &names[i]);
        append_vec(&mut l, post);
        ls.push(l);
        i = i + 1;
    }
    assert(vviews(ls@) =~= vviews(names@).map_values(|n: Seq<char>| pre@ + n + post@));
    join_vec(&ls, "\n")
}

/// `Outer.Inner` as `Outer_Inner`.
fn flat_name_vec(v: &Vec<char>) -> (r: Vec<char>)
    ensures
        r@ == flat_name(v@),
{
    let mut out: Vec<char> = Vec::new();
    let mut i: usize = 0;
    while i < v.len()
        invariant
            0 <= i <= v.len(),
            out@.len() == i,
            forall|k: int| 0 <= k < i ==> #[trigger] out@[k] == (if v@[k] == '.' { '_' } else { v@[k] }),
        decreases v.len() - i,
    {
        if v[i] == '.' {
            out.push('_');
        } else {
            out.push(v[i]);
        }
        i = i + 1;
    }
    assert(out@ =~= flat_name(v@));
    out
}

/// Where the 15-byte look-back window before position `st` starts.
fn back15_at(s: &Vec<char>, st: usize) -> (r: usize)
    requires
        st <= s.len(),
    ensures
        r == back15(s@, st as int, 0),
        r <= st,
{
    let mut j = st;
    let mut acc: usize = 0;
    while j > 0 && acc < 15
        invariant
            j <= st <= s.len(),
            acc < 19,
            back15(s@, st as int, 0) == back15(s@, j as int, acc as int),
        decreases j,
    {
        let c = s[j - 1];
        if '\u{80}' > c {
            acc = acc + 1;
        } else if '\u{800}' > c {
            acc = acc + 2;
        } else if '\u{10000}' > c {
            acc = acc + 3;
        } else {
            acc = acc + 4;
        }
        j = j - 1;
    }
    j
}

impl Translator {
    /// One declaration with initializer (match `k` of `ms`), in Rust.
    fn var_init_of(&self, sv: &Vec<char>, c: &Vec<Option<String>>, st: usize) -> (r: Vec<char>)
        requires
            st <= sv@.len(),
        ensures
            ({
                let cv = groups_view(*c);
                let t = grp(cv, 2);
                let v = grp(cv, 3);
                let val = trim(grp(cv, 4));
                let before = sv@.subrange(back15(sv@, st as int, 0), st as int);
                r@ == (if has_grp(cv, 1) && val.len() > 0 && all_digits(val) {
                    "const "@ + v + ": usize = "@ + val + ";"@
                } else if has_grp(cv, 1) {
                    if t == "String"@ && quoted(val) {
                        "let "@ + v + ": String = "@ + val + ".to_string();"@
                    } else {
                        "let "@ + v + ": "@ + t + " = "@ + val + ";"@
                    }
                } else if contains(before, "for ("@) || contains(before, "for("@) {
                    t + " "@ + v + " = "@ + val + ";"@
                } else if t == "String"@ && quoted(val) {
                    "let mut "@ + v + ": String = "@ + val + ".to_string();"@
                } else {
                    "let mut "@ + v + ": "@ + t + " = "@ + val + ";"@
                })
            }),
    {
        let t = group(c, 2);
        let v = group(c, 3);
        let val = trim_vec(&group(c, 4));
        let b = back15_at(sv, st);
        let before = sub_vec(sv, b, st);
        let is_const = has_group(c, 1);
        let mut digits = val.len() > 0;
        let mut i: usize = 0;
        while i < val.len()
            invariant
                0 <= i <= val.len(),
                digits == (val@.len() > 0 && forall|k: int| 0 <= k < i ==> '0' <= #[trigger] val@[k] && val@[k] <= '9'),
            decreases val.len() - i,
        {
            if !('0' <= val[i] && val[i] <= '9') {
                digits = false;
            }
            i = i + 1;
        }
        let is_string_lit = same_text(&t, "String") && val.len() > 0 && val[0] == '"';
        let mut out: Vec<char> = Vec::new();
        if is_const && digits {
            push_str(&mut out, "const ");
            append_vec(&mut out, &v);
            push_str(&mut out, ": usize = ");
            append_vec(&mut out, &val);
            push_str(&mut out, ";");
        } else if is_const {
            push_str(&mut out, "let ");
            append_vec(&mut out, &v);
            if is_string_lit {
                push_str(&mut out, ": String = ");
                append_vec(&mut out, &val);
                push_str(&mut out, ".to_string();");
            } else {
                push_str(&mut out, ": ");
                append_vec(&mut out, &t);
                push_str(&mut out, " = ");
                append_vec(&mut out, &val);
                push_str(&mut out, ";");
            }
        } else if find_text(&before, "for (").is_some() || find_text(&before, "for(").is_some() {
            append_vec(&mut out, &t);
            push_str(&mut out, " ");
            append_vec(&mut out, &v);
            push_str(&mut out, " = ");
            append_vec(&mut out, &val);
            push_str(&mut out, ";");
        } else if is_string_lit {
            push_str(&mut out, "let mut ");
            append_vec(&mut out, &v);
            push_str(&mut out, ": String = ");
            append_vec(&mut out, &val);
            push_str(&mut out, ".to_string();");
        } else {
            push_str(&mut out, "let mut ");
            append_vec(&mut out, &v);
            push_str(&mut out, ": ");
            append_vec(&mut out, &t);
            push_str(&mut out, " = ");
            append_vec(&mut out, &val);
            push_str(&mut out, ";");
        }
        out
    }

    /// Scalar declarations: `i32 x = 42;` becomes `let mut x: i32 = 42;`,
    /// `const i32 N = 42;` the constant `const N: usize = 42;`, `i32 a, b;`
    /// one `let mut` each.
    pub fn transform_variable_declarations(&self, source: &str) -> (r: Result<String, TranspileError>)
        ensures
            result_view(r) == rule_var_decls(source@),
    {
        let (g, ms) = match regex_search(r"(?:(const)\s+)?\b(i8|i16|i32|i64|u8|u16|u32|u64|f32|f64|bool|char|String)\s+([a-zA-Z_][a-zA-Z0-9_]*)\s*=\s*([^;]+);", source) {
            Ok(x) => x,
            Err(m) => {
                return Err(TranspileError::TransformError(m));
            },
        };
        let sv = chars_of(source);
        let ends = match_ends(&g, &ms, source);
        let ghost gv = strings(g@);
        let ghost mv = matches_view(ms@);
        let mut reps: Vec<Vec<char>> = Vec::new();
        let mut i: usize = 0;
        while i < ms.len()
            invariant
                0 <= i <= ms.len(),
                sv@ == source@,
                gv == strings(g@),
                mv == matches_view(ms@),
                ends@.len() == ms@.len(),
                forall|j: int| 0 <= j < ms@.len() ==> #[trigger] ends@[j] == match_end(gv, whole(mv), j),
                forall|j: int| 0 <= j < ms@.len() ==> ends@[j] <= source@.len(),
                reps@.len() == i,
                forall|k: int| 0 <= k < i ==> #[trigger] reps@[k]@ == rep_var_init(source@, gv, mv, k),
            decreases ms.len() - i,
        {
            assert(mv[i as int] == groups_view(ms@[i as int]));
            assert(whole(mv)[i as int] == grp(mv[i as int], 0));
            proof {
                crate::pattern::lemma_match_end_ge(gv, whole(mv), i as int);
            }
            let st = ends[i] - group(&ms[i], 0).len();
            reps.push(self.var_init_of(&sv, &ms[i], st));
            i = i + 1;
        }
        assert(vviews(reps@) =~= Seq::new(mv.len(), |k: int| rep_var_init(source@, gv, mv, k)));
        let r1 = string_of(&splice_texts(&g, &reps));
        let (g2, m2) = match regex_search(r"\b(i8|i16|i32|i64|u8|u16|u32|u64|f32|f64|bool|char|String)\s+([a-zA-Z_][a-zA-Z0-9_]*(?:\s*,\s*[a-zA-Z_][a-zA-Z0-9_]*)*)\s*;", r1.as_str()) {
            Ok(x) => x,
            Err(m) => {
                return Err(TranspileError::TransformError(m));
            },
        };
        let ghost mv2 = matches_view(m2@);
        let mut reps2: Vec<Vec<char>> = Vec::new();
        let mut j: usize = 0;
        while j < m2.len()
            invariant
                0 <= j <= m2.len(),
                mv2 == matches_view(m2@),
                reps2@.len() == j,
                forall|k: int| 0 <= k < j ==> #[trigger] reps2@[k]@ == decl_lines(nonempty_trimmed(split_on(grp(mv2[k], 2), ',')), "let mut "@, ": "@ + grp(mv2[k], 1) + ";"@),
            decreases m2.len() - j,
        {
            assert(mv2[j as int] == groups_view(m2@[j as int]));
            let c = &m2[j];
            let mut pre: Vec<char> = Vec::new();
            push_str(&mut pre, "let mut ");
            let mut post: Vec<char> = Vec::new();
            push_str(&mut post, ": ");
            append_vec(&mut post, &group(c, 1));
            push_str(&mut post, ";");
            reps2.push(decl_lines_vec(&comma_names(&group(c, 2)), &pre, &post));
            j = j + 1;
        }
        assert(vviews(reps2@) =~= mv2.map_values(|c: Seq<Option<Seq<char>>>|
            decl_lines(nonempty_trimmed(split_on(grp(c, 2), ',')), "let mut "@, ": "@ + grp(c, 1) + ";"@)));
        Ok(string_of(&splice_texts(&g2, &reps2)))
    }

    /// Object declarations: `Point p = new Point(1, 2);` becomes
    /// `let mut p: Point = Point::new(1, 2);` and `Point a, b;` a default
    /// value for each (nested `Outer.Inner` as `Outer_Inner`).
    pub fn transform_class_instantiation(&self, source: &str) -> (r: Result<String, TranspileError>)
        ensures
            result_view(r) == rule_class_inst(source@),
    {
        let (g, ms) = match regex_search(r"\b([A-Z][a-zA-Z0-9_]*(?:\.[A-Z][a-zA-Z0-9_]*)*)\s+([a-z_][a-zA-Z0-9_]*)\s*=\s*new\s+([A-Z][a-zA-Z0-9_]*(?:\.[A-Z][a-zA-Z0-9_]*)*)\s*\(([^)]*)\)\s*;", source) {
            Ok(x) => x,
            Err(m) => {
                return Err(TranspileError::TransformError(m));
            },
        };
        let ghost mv = matches_view(ms@);
        let mut reps: Vec<Vec<char>> = Vec::new();
        let mut i: usize = 0;
        while i < ms.len()
            invariant
                0 <= i <= ms.len(),
                mv == matches_view(ms@),
                reps@.len() == i,
                forall|k: int| 0 <= k < i ==> #[trigger] reps@[k]@ == rep_new_obj(mv[k]),
            decreases ms.len() - i,
        {
            assert(mv[i as int] == groups_view(ms@[i as int]));
            let c = &ms[i];
            let t1 = group(c, 1);
            let t3 = group(c, 3);
            let eq = same_text(&t1, string_of(&t3).as_str());
            if !eq {
                reps.push(group(c, 0));
            } else {
                let rt = flat_name_vec(&t1);
                let mut rep: Vec<char> = Vec::new();
                push_str(&mut rep, "let mut ");
                append_vec(&mut rep, &group(c, 2));
                push_str(&mut rep, ": ");
                append_vec(&mut rep, &rt);
                push_str(&mut rep, " = ");
                append_vec(&mut rep, &rt);
                push_str(&mut rep, "::new(");
                append_vec(&mut rep, &group(c, 4));
                push_str(&mut rep, ");");
                reps.push(rep);
            }
            i = i + 1;
        }
        assert(vviews(reps@) =~= mv.map_values(|c: Seq<Option<Seq<char>>>| rep_new_obj(c)));
        let r1 = string_of(&splice_texts(&g, &reps));
        let (g2, m2) = match regex_search(r"\b([A-Z][a-zA-Z0-9_]*(?:\.[A-Z][a-zA-Z0-9_]*)*)\s+([a-z_][a-zA-Z0-9_]*(?:\s*,\s*[a-z_][a-zA-Z0-9_]*)*)\s*;", r1.as_str()) {
            Ok(x) => x,
            Err(m) => {
                return Err(TranspileError::TransformError(m));
            },
        };
        let ghost mv2 = matches_view(m2@);
        let mut reps2: Vec<Vec<char>> = Vec::new();
        let mut j: usize = 0;
        while j < m2.len()
            invariant
                0 <= j <= m2.len(),
                mv2 == matches_view(m2@),
                reps2@.len() == j,
                forall|k: int| 0 <= k < j ==> #[trigger] reps2@[k]@ == rep_obj_decl(mv2[k]),
            decreases m2.len() - j,
        {
            assert(mv2[j as int] == groups_view(m2@[j as int]));
            let c = &m2[j];
            let t = group(c, 1);
            let names = comma_names(&group(c, 2));
            if self.is_primitive_type(string_of(&t).as_str()) {
                let mut pre = sub_vec_copy(&t);
                push_str(&mut pre, " ");
                let mut post: Vec<char> = Vec::new();
                push_str(&mut post, ";");
                reps2.push(decl_lines_vec(&names, &pre, &post));
            } else {
                let rt = flat_name_vec(&t);
                let mut pre: Vec<char> = Vec::new();
                push_str(&mut pre, "let mut ");
                let mut post: Vec<char> = Vec::new();
                push_str(&mut post, ": ");
                append_vec(&mut post, &rt);
                push_str(&mut post, " = ");
                append_vec(&mut post, &rt);
                push_str(&mut post, "::default();");
                reps2.push(decl_lines_vec(&names, &pre, &post));
            }
            j = j + 1;
        }
        assert(vviews(reps2@) =~= mv2.map_values(|c: Seq<Option<Seq<char>>>| rep_obj_decl(c)));
        Ok(string_of(&splice_texts(&g2, &reps2)))
    }
}


/// Match `k` (matches `m`, pieces `g`) of `src` follows a `!` (white
/// space between): a `!=` comparison.
pub open spec fn bang_before(src: Seq<char>, g: Seq<Seq<char>>, m: Seq<Seq<Option<Seq<char>>>>, k: int) -> bool {
    let p = ws_back(src, match_start(g, m, k));
    p > 0 && p <= src.len() && src[p - 1] == '!'
}

/// A string literal assigned, as an owned `String`; a `!=` comparison kept.
pub open spec fn rep_string_assign(src: Seq<char>, g: Seq<Seq<char>>, m: Seq<Seq<Option<Seq<char>>>>, k: int) -> Seq<char> {
    if bang_before(src, g, m, k) {
        grp(m[k], 0)
    } else {
        trim(grp(m[k], 1)) + " = "@ + grp(m[k], 2) + ".to_string();"@
    }
}

/// The pattern of an assignment of a string literal.
pub open spec fn string_assign_pat() -> Seq<char> {
    r#"([a-zA-Z_][\w.\[\]]*)\s*=\s*("(?:[^"\\]|\\.)*")\s*;"#@
}

/// `x.f = "lit";` as `x.f = "lit".to_string();`.
pub open spec fn rule_string_assign(src: Seq<char>) -> Result<Seq<char>, TranspileErrorView> {
    match regex_scan(string_assign_pat(), src) {
        None => Err(TranspileErrorView::TransformError(regex_error(string_assign_pat()))),
        Some((g, m)) => Ok(splice(g, Seq::new(m.len(), |k: int| rep_string_assign(src, g, m, k)))),
    }
}

/// A string literal of a call's arguments, with `.to_string()` unless one
/// follows already.
pub open spec fn rep_arg_lit(args: Seq<char>, g: Seq<Seq<char>>, m: Seq<Seq<Option<Seq<char>>>>, k: int) -> Seq<char> {
    let en = match_end(g, whole(m), k);
    if has_prefix(args.subrange(en, args.len() as int), ".to_string()"@) {
        "\""@ + grp(m[k], 1) + "\""@
    } else {
        "\""@ + grp(m[k], 1) + "\".to_string()"@
    }
}

/// The string literals of call arguments `args` as owned strings.
pub open spec fn args_lits(args: Seq<char>) -> Seq<char> {
    match regex_scan(r#""([^"]+)""#@, args) {
        Some((g, m)) => splice(g, Seq::new(m.len(), |k: int| rep_arg_lit(args, g, m, k))),
        None => args,
    }
}

/// The pattern of a function definition (parameters and `-> String`).
pub open spec fn fn_def_pat() -> Seq<char> {
    r"fn\s+([a-zA-Z_]\w*)\s*\(([^)]*)\)\s*(?:->\s*String\s*)?\{"@
}

/// The names of the first `k` functions `m` that take a `String`.
pub open spec fn string_fns(m: Seq<Seq<Option<Seq<char>>>>, k: int) -> Seq<Seq<char>>
    decreases k,
{
    if k <= 0 {
        Seq::empty()
    } else if contains(grp(m[k - 1], 2), "String"@) {
        string_fns(m, k - 1).push(grp(m[k - 1], 1))
    } else {
        string_fns(m, k - 1)
    }
}

/// The pattern of a call of function `name`.
pub open spec fn call_pat(name: Seq<char>) -> Seq<char> {
    escaped(name) + r"\s*\(([^)]+)\)"@
}

/// The calls of the first `k` functions `names` with their string literal
/// arguments owned.
pub open spec fn calls_fold(s: Seq<char>, names: Seq<Seq<char>>, k: int) -> Result<Seq<char>, TranspileErrorView>
    decreases k,
{
    if k <= 0 {
        Ok(s)
    } else {
        match calls_fold(s, names, k - 1) {
            Err(e) => Err(e),
            Ok(s1) => {
                let name = names[k - 1];
                match regex_scan(call_pat(name), s1) {
                    None => Err(TranspileErrorView::TransformError(regex_error(call_pat(name)))),
                    Some((g, m)) => Ok(splice(g, m.map_values(|c: Seq<Option<Seq<char>>>| name + "("@ + args_lits(grp(c, 1)) + ")"@))),
                }
            },
        }
    }
}

/// `return "lit";` as `return "lit".to_string();`.
pub open spec fn rep_return_lit(c: Seq<Option<Seq<char>>>) -> Seq<char> {
    "return \""@ + grp(c, 1) + "\".to_string();"@
}

/// String literals passed to functions taking a `String`, and returned, as
/// owned strings.
pub open spec fn rule_string_literals(src: Seq<char>) -> Result<Seq<char>, TranspileErrorView> {
    match regex_scan(fn_def_pat(), src) {
        None => Err(TranspileErrorView::TransformError(regex_error(fn_def_pat()))),
        Some((g, m)) => {
            let names = string_fns(m, m.len() as int);
            match calls_fold(src, names, names.len() as int) {
                Err(e) => Err(e),
                Ok(s1) => regex_rule(r#"return\s+"([^"]+)"\s*;"#@, s1, |c: Seq<Option<Seq<char>>>| rep_return_lit(c)),
            }
        },
    }
}

proof fn lemma_calls_fold_err(s: Seq<char>, names: Seq<Seq<char>>, k: int, n: int)
    requires
        0 <= k <= n,
        calls_fold(s, names, k) is Err,
    ensures
        calls_fold(s, names, n) == calls_fold(s, names, k),
    decreases n - k,
{
    if k < n {
        lemma_calls_fold_err(s, names, k, n - 1);
    }
}

impl Translator {
    /// `x.f = "lit";` as `x.f = "lit".to_string();` (a `!=` comparison is
    /// left alone).
    pub fn translate_string_assign(&self, source: &str) -> (r: Result<String, TranspileError>)
        ensures
            result_view(r) == rule_string_assign(source@),
    {
        let (g, ms) = match regex_search(r#"([a-zA-Z_][\w.\[\]]*)\s*=\s*("(?:[^"\\]|\\.)*")\s*;"#, source) {
            Ok(x) => x,
            Err(m) => {
                return Err(TranspileError::TransformError(m));
            },
        };
        let sv = chars_of(source);
        let ends = match_ends(&g, &ms, source);
        let ghost gv = strings(g@);
        let ghost mv = matches_view(ms@);
        let mut reps: Vec<Vec<char>> = Vec::new();
        let mut i: usize = 0;
        while i < ms.len()
            invariant
                0 <= i <= ms.len(),
                sv@ == source@,
                gv == strings(g@),
                mv == matches_view(ms@),
                ends@.len() == ms@.len(),
                forall|j: int| 0 <= j < ms@.len() ==> #[trigger] ends@[j] == match_end(gv, whole(mv), j),
                forall|j: int| 0 <= j < ms@.len() ==> ends@[j] <= source@.len(),
                reps@.len() == i,
                forall|k: int| 0 <= k < i ==> #[trigger] reps@[k]@ == rep_string_assign(source@, gv, mv, k),
            decreases ms.len() - i,
        {
            assert(mv[i as int] == groups_view(ms@[i as int]));
            assert(whole(mv)[i as int] == grp(mv[i as int], 0));
            proof {
                crate::pattern::lemma_match_end_ge(gv, whole(mv), i as int);
            }
            let c = &ms[i];
            let st = ends[i] - group(c, 0).len();
            let p = ws_back_at(&sv, st);
            if p > 0 && sv[p - 1] == '!' {
                reps.push(group(c, 0));
            } else {
                let mut rep = trim_vec(&group(c, 1));
                push_str(&mut rep, " = ");
                append_vec(&mut rep, &group(c, 2));
                push_str(&mut rep, ".to_string();");
                reps.push(rep);
            }
            i = i + 1;
        }
        assert(vviews(reps@) =~= Seq::new(mv.len(), |k: int| rep_string_assign(source@, gv, mv, k)));
        Ok(string_of(&splice_texts(&g, &reps)))
    }

    /// The string literals of call arguments `args` as owned strings (one
    /// already followed by `.to_string()` is kept).
    pub fn transform_string_literals_in_args(&self, args: &str) -> (r: String)
        ensures
            r@ == args_lits(args@),
    {
        let (g, ms) = match regex_search(r#""([^"]+)""#, args) {
            Ok(x) => x,
            Err(_) => {
                return String::from_str(args);
            },
        };
        let av = chars_of(args);
        let ends = match_ends(&g, &ms, args);
        let ghost gv = strings(g@);
        let ghost mv = matches_view(ms@);
        let mut reps: Vec<Vec<char>> = Vec::new();
        let mut i: usize = 0;
        while i < ms.len()
            invariant
                0 <= i <= ms.len(),
                av@ == args@,
                gv == strings(g@),
                mv == matches_view(ms@),
                ends@.len() == ms@.len(),
                forall|j: int| 0 <= j < ms@.len() ==> #[trigger] ends@[j] == match_end(gv, whole(mv), j),
                forall|j: int| 0 <= j < ms@.len() ==> ends@[j] <= args@.len(),
                reps@.len() == i,
                forall|k: int| 0 <= k < i ==> #[trigger] reps@[k]@ == rep_arg_lit(args@, gv, mv, k),
            decreases ms.len() - i,
        {
            assert(mv[i as int] == groups_view(ms@[i as int]));
            let c = &ms[i];
            let after = sub_vec(&av, ends[i], av.len());
            let mut rep: Vec<char> = Vec::new();
            push_str(&mut rep, "\"");
            append_vec(&mut rep, &group(c, 1));
            if starts_with_str(&after, ".to_string()") {
                push_str(&mut rep, "\"");
            } else {
                push_str(&mut rep, "\".to_string()");
            }
            reps.push(rep);
            i = i + 1;
        }
        assert(vviews(reps@) =~= Seq::new(mv.len(), |k: int| rep_arg_lit(args@, gv, mv, k)));
        string_of(&splice_texts(&g, &reps))
    }

    /// Every call of `name` with its string literal arguments owned.
    fn owned_call_args(&self, s: &str, name: &Vec<char>) -> (r: Result<String, TranspileError>)
        ensures
            match r {
                Ok(t) => regex_scan(call_pat(name@), s@) matches Some((g, m)) && t@ == splice(g, m.map_values(|c: Seq<Option<Seq<char>>>| name@ + "("@ + args_lits(grp(c, 1)) + ")"@)),
                Err(e) => regex_scan(call_pat(name@), s@) is None && e@ == TranspileErrorView::TransformError(regex_error(call_pat(name@))),
            },
    {
        let mut pat = chars_of(regex_escape(string_of(name).as_str()).as_str());
        push_str(&mut pat, r"\s*\(([^)]+)\)");
        assert(pat@ == call_pat(name@));
        let (g, ms) = match regex_search(string_of(&pat).as_str(), s) {
            Ok(x) => x,
            Err(m) => {
                return Err(TranspileError::TransformError(m));
            },
        };
        let ghost mv = matches_view(ms@);
        let mut reps: Vec<Vec<char>> = Vec::new();
        let mut i: usize = 0;
        while i < ms.len()
            invariant
                0 <= i <= ms.len(),
                mv == matches_view(ms@),
                reps@.len() == i,
                forall|k: int| 0 <= k < i ==> #[trigger] reps@[k]@ == name@ + "("@ + args_lits(grp(mv[k], 1)) + ")"@,
            decreases ms.len() - i,
        {
            assert(mv[i as int] == groups_view(ms@[i as int]));
            let mut rep = sub_vec_copy(name);
            push_str(&mut rep, "(");
            push_str(&mut rep, self.transform_string_literals_in_args(string_of(&group(&ms[i], 1)).as_str()).as_str());
            push_str(&mut rep, ")");
            reps.push(rep);
            i = i + 1;
        }
        assert(vviews(reps@) =~= mv.map_values(|c: Seq<Option<Seq<char>>>| name@ + "("@ + args_lits(grp(c, 1)) + ")"@));
        Ok(string_of(&splice_texts(&g, &reps)))
    }

    /// String literals passed to a function with a `String` parameter, and
    /// returned, as owned strings: `greet("World")` becomes
    /// `greet("World".to_string())`.
    pub fn transform_string_literals_in_functions(&self, source: &str) -> (r: Result<String, TranspileError>)
        ensures
            result_view(r) == rule_string_literals(source@),
    {
        let (_g, ms) = match regex_search(r"fn\s+([a-zA-Z_]\w*)\s*\(([^)]*)\)\s*(?:->\s*String\s*)?\{", source) {
            Ok(x) => x,
            Err(m) => {
                return Err(TranspileError::TransformError(m));
            },
        };
        let ghost mv = matches_view(ms@);
        let mut names: Vec<Vec<char>> = Vec::new();
        let mut i: usize = 0;
        while i < ms.len()
            invariant
                0 <= i <= ms.len(),
                mv == matches_view(ms@),
                vviews(names@) == string_fns(mv, i as int),
            decreases ms.len() - i,
        {
            assert(mv[i as int] == groups_view(ms@[i as int]));
            if find_text(&group(&ms[i], 2), "String").is_some() {
                let ghost n0 = vviews(names@);
                names.push(group(&ms[i], 1));
                assert(vviews(names@) =~= n0.push(grp(mv[i as int], 1)));
            }
            i = i + 1;
        }
        let ghost nv = vviews(names@);
        let mut cur = String::from_str(source);
        let mut k: usize = 0;
        while k < names.len()
            invariant
                0 <= k <= names.len(),
                nv == vviews(names@),
                regex_scan(fn_def_pat(), source@) == Some((strings(_g@), mv)),
                nv == string_fns(mv, mv.len() as int),
                calls_fold(source@, nv, k as int) == Ok::<Seq<char>, TranspileErrorView>(cur@),
            decreases names.len() - k,
        {
            assert(nv[k as int] == names@[k as int]@);
            match self.owned_call_args(cur.as_str(), &names[k]) {
                Ok(t) => {
                    cur = t;
                },
                Err(e) => {
                    proof {
                        lemma_calls_fold_err(source@, nv, k + 1, nv.len() as int);
                    }
                    return Err(e);
                },
            }
            k = k + 1;
        }
        let (g3, m3) = match regex_search(r#"return\s+"([^"]+)"\s*;"#, cur.as_str()) {
            Ok(x) => x,
            Err(m) => {
                return Err(TranspileError::TransformError(m));
            },
        };
        let ghost mv3 = matches_view(m3@);
        let mut reps: Vec<Vec<char>> = Vec::new();
        let mut j: usize = 0;
        while j < m3.len()
            invariant
                0 <= j <= m3.len(),
                mv3 == matches_view(m3@),
                reps@.len() == j,
                forall|q: int| 0 <= q < j ==> #[trigger] reps@[q]@ == rep_return_lit(mv3[q]),
            decreases m3.len() - j,
        {
            assert(mv3[j as int] == groups_view(m3@[j as int]));
            let mut rep: Vec<char> = Vec::new();
            push_str(&mut rep, "return \"");
            append_vec(&mut rep, &group(&m3[j], 1));
            push_str(&mut rep, "\".to_string();");
            reps.push(rep);
            j = j + 1;
        }
        assert(vviews(reps@) =~= mv3.map_values(|c: Seq<Option<Seq<char>>>| rep_return_lit(c)));
        Ok(string_of(&splice_texts(&g3, &reps)))
    }
}


/// The ancestors of class `c` in a table given by content, nearest first.
pub open spec fn ancestors_v(tv: Seq<(Seq<char>, (Option<Seq<char>>, Seq<Seq<char>>))>, c: Seq<char>) -> Seq<Seq<char>> {
    chain_view(tv, parent_in_view(tv, c), Seq::empty(), (tv.len() + 1) as nat)
}

/// [`field_paths`] on a table given by content.
pub open spec fn field_paths_v(source: Seq<char>, tv: Seq<(Seq<char>, (Option<Seq<char>>, Seq<Seq<char>>))>, c: Seq<char>) -> Seq<(Seq<char>, Seq<char>)> {
    let anc = ancestors_v(tv, c);
    paths_upto(source, anc, class_fields(source, c), anc.len() as int)
}

proof fn lemma_field_paths_v(source: Seq<char>, t: Seq<(String, ClassInfo)>, c: Seq<char>)
    ensures
        field_paths(source, t, c) == field_paths_v(source, table_view(t), c),
{
    lemma_parent_view(t, c);
    lemma_chain_view(t, parent_of(t, c), Seq::empty(), (t.len() + 1) as nat);
}

/// The classes among the first `k` of `tv` that inherit fields, each with
/// its map from inherited field to path.
pub open spec fn inherited_maps(source: Seq<char>, tv: Seq<(Seq<char>, (Option<Seq<char>>, Seq<Seq<char>>))>, k: int) -> Seq<(Seq<char>, Seq<(Seq<char>, Seq<char>)>)>
    decreases k,
{
    if k <= 0 {
        Seq::empty()
    } else {
        let prev = inherited_maps(source, tv, k - 1);
        let fm = field_paths_v(source, tv, tv[k - 1].0);
        if fm.len() > 0 {
            prev.push((tv[k - 1].0, fm))
        } else {
            prev
        }
    }
}

/// The pattern of an access to field `f` of variable `v`.
pub open spec fn var_field_pat(v: Seq<char>, f: Seq<char>) -> Seq<char> {
    r"\b"@ + escaped(v) + r"\."@ + escaped(f)
}

/// `s` with `v.f` as `v.path.f` for the first `j` entries of `fm`.
pub open spec fn rewrite_fields(s: Seq<char>, v: Seq<char>, fm: Seq<(Seq<char>, Seq<char>)>, j: int) -> Seq<char>
    decreases j,
{
    if j <= 0 {
        s
    } else {
        let s1 = rewrite_fields(s, v, fm, j - 1);
        let f = fm[j - 1].0;
        let p = fm[j - 1].1;
        replace_const(var_field_pat(v, f), s1, v + "."@ + p + "."@ + f)
    }
}

/// [`rewrite_fields`] for the first `i` variables `vs`.
pub open spec fn rewrite_vars(s: Seq<char>, vs: Seq<Seq<char>>, fm: Seq<(Seq<char>, Seq<char>)>, i: int) -> Seq<char>
    decreases i,
{
    if i <= 0 {
        s
    } else {
        let s1 = rewrite_vars(s, vs, fm, i - 1);
        rewrite_fields(s1, vs[i - 1], fm, fm.len() as int)
    }
}

/// The pattern of a declaration `Cls v = new Cls`.
pub open spec fn var_decl_pat(cls: Seq<char>) -> Seq<char> {
    escaped(cls) + r"\s+([a-z_][a-zA-Z0-9_]*)\s*=\s*new\s+"@ + escaped(cls)
}

/// Group 1 of each match.
pub open spec fn group1s(m: Seq<Seq<Option<Seq<char>>>>) -> Seq<Seq<char>> {
    m.map_values(|c: Seq<Option<Seq<char>>>| grp(c, 1))
}

/// The inherited field accesses of the variables declared of class `cls`.
pub open spec fn rewrite_class(s: Seq<char>, cls: Seq<char>, fm: Seq<(Seq<char>, Seq<char>)>) -> Seq<char> {
    match regex_scan(var_decl_pat(cls), s) {
        Some((g, m)) => rewrite_vars(s, group1s(m), fm, m.len() as int),
        None => s,
    }
}

/// [`rewrite_class`] for the first `k` classes of `maps`.
pub open spec fn rewrite_classes(s: Seq<char>, maps: Seq<(Seq<char>, Seq<(Seq<char>, Seq<char>)>)>, k: int) -> Seq<char>
    decreases k,
{
    if k <= 0 {
        s
    } else {
        rewrite_class(rewrite_classes(s, maps, k - 1), maps[k - 1].0, maps[k - 1].1)
    }
}

/// Outside class bodies, `obj.field` for a field that `obj`'s class
/// inherits as `obj.Parent.field` (the path to the ancestor declaring it).
pub open spec fn rule_inherited_access(src: Seq<char>) -> Seq<char> {
    let tv = class_table_of(src);
    let maps = inherited_maps(src, tv, tv.len() as int);
    rewrite_classes(src, maps, maps.len() as int)
}

impl Translator {
    /// `v.f` as `v.path.f` for each inherited field of `fm` (`v` of a class
    /// with inherited fields).
    fn rewrite_var_fields(&self, s: String, v: &Vec<char>, fm: &StrMap<String>) -> (r: String)
        ensures
            r@ == rewrite_fields(s@, v@, path_map_view(fm.entries@), fm.entries@.len() as int),
    {
        let ghost fmv = path_map_view(fm.entries@);
        let ghost s0 = s@;
        let mut cur = s;
        let mut j: usize = 0;
        while j < fm.entries.len()
            invariant
                0 <= j <= fm.entries.len(),
                fmv == path_map_view(fm.entries@),
                cur@ == rewrite_fields(s0, v@, fmv, j as int),
            decreases fm.entries.len() - j,
        {
            assert(fmv[j as int] == (fm.entries@[j as int].0@, fm.entries@[j as int].1@));
            let f = chars_of(fm.entries[j].0.as_str());
            let mut pat: Vec<char> = Vec::new();
            push_str(&mut pat, r"\b");
            push_str(&mut pat, regex_escape(string_of(v).as_str()).as_str());
            push_str(&mut pat, r"\.");
            push_str(&mut pat, regex_escape(fm.entries[j].0.as_str()).as_str());
            assert(pat@ == var_field_pat(v@, f@));
            let mut rep = sub_vec_copy(v);
            push_str(&mut rep, ".");
            push_str(&mut rep, fm.entries[j].1.as_str());
            push_str(&mut rep, ".");
            append_vec(&mut rep, &f);
            cur = replace_all_const(string_of(&pat).as_str(), cur.as_str(), string_of(&rep).as_str());
            j = j + 1;
        }
        cur
    }

    /// Outside class bodies, `obj.field` for a field `obj`'s class inherits
    /// as `obj.Parent.field`: the path to the ancestor that declares it.
    pub fn transform_inherited_field_access(&self, source: &str) -> (r: Result<String, TranspileError>)
        ensures
            r matches Ok(t) && t@ == rule_inherited_access(source@),
    {
        let t = self.extract_class_table(source);
        let ghost tv = class_table_of(source@);
        let mut maps: Vec<(String, StrMap<String>)> = Vec::new();
        let mut k: usize = 0;
        while k < t.entries.len()
            invariant
                0 <= k <= t.entries.len(),
                tv == class_table_of(source@),
                table_view(t.entries@) == tv,
                maps@.map_values(|p: (String, StrMap<String>)| (p.0@, path_map_view(p.1.entries@))) == inherited_maps(source@, tv, k as int),
            decreases t.entries.len() - k,
        {
            assert(tv[k as int].0 == t.entries@[k as int].0@);
            let fm = self.build_field_path_map(t.entries[k].0.as_str(), &t, source);
            proof {
                lemma_field_paths_v(source@, t.entries@, t.entries@[k as int].0@);
            }
            if fm.entries.len() > 0 {
                let ghost m0 = maps@.map_values(|p: (String, StrMap<String>)| (p.0@, path_map_view(p.1.entries@)));
                maps.push((string_of(&chars_of(t.entries[k].0.as_str())), fm));
                assert(maps@.map_values(|p: (String, StrMap<String>)| (p.0@, path_map_view(p.1.entries@))) =~= m0.push((tv[k as int].0, field_paths_v(source@, tv, tv[k as int].0))));
            }
            k = k + 1;
        }
        let ghost mv = maps@.map_values(|p: (String, StrMap<String>)| (p.0@, path_map_view(p.1.entries@)));
        let mut cur = String::from_str(source);
        let mut c: usize = 0;
        while c < maps.len()
            invariant
                0 <= c <= maps.len(),
                mv == maps@.map_values(|p: (String, StrMap<String>)| (p.0@, path_map_view(p.1.entries@))),
                cur@ == rewrite_classes(source@, mv, c as int),
            decreases maps.len() - c,
        {
            assert(mv[c as int] == (maps@[c as int].0@, path_map_view(maps@[c as int].1.entries@)));
            let cls = maps[c].0.as_str();
            let mut pat: Vec<char> = Vec::new();
            push_str(&mut pat, regex_escape(cls).as_str());
            push_str(&mut pat, r"\s+([a-z_][a-zA-Z0-9_]*)\s*=\s*new\s+");
            push_str(&mut pat, regex_escape(cls).as_str());
            assert(pat@ == var_decl_pat(cls@));
            match regex_search(string_of(&pat).as_str(), cur.as_str()) {
                Ok((_g, ms)) => {
                    let ghost s1 = cur@;
                    let ghost vs = group1s(matches_view(ms@));
                    let mut i: usize = 0;
                    while i < ms.len()
                        invariant
                            0 <= i <= ms.len(),
                            0 <= c < maps@.len(),
                            vs == group1s(matches_view(ms@)),
                            cur@ == rewrite_vars(s1, vs, path_map_view(maps@[c as int].1.entries@), i as int),
                        decreases ms.len() - i,
                    {
                        assert(matches_view(ms@)[i as int] == groups_view(ms@[i as int]));
                        let v = group(&ms[i], 1);
                        cur = self.rewrite_var_fields(cur, &v, &maps[c].1);
                        i = i + 1;
                    }
                },
                Err(_) => {},
            }
            c = c + 1;
        }
        Ok(cur)
    }
}


/// `s.parse::<i64>()` succeeds, as the standard library documents it: an
/// optional `+` or `-`, then at least one decimal digit, with a value that
/// fits in an `i64`.
pub open spec fn parses_i64(s: Seq<char>) -> bool {
    let neg = s.len() > 0 && s[0] == '-';
    let d = if s.len() > 0 && (s[0] == '+' || s[0] == '-') {
        s.drop_first()
    } else {
        s
    };
    d.len() > 0 && crate::text::dec_digits(d) && (if neg {
        crate::text::digits_value(d) <= 0x8000_0000_0000_0000nat
    } else {
        crate::text::digits_value(d) <= 0x7fff_ffff_ffff_ffffnat
    })
}

/// `str::parse::<i64>` succeeds on `s`: claimed as the standard library
/// documents `i64::from_str` (see [`parses_i64`]).
#[verifier::external_body]
fn parse_i64_ok(s: &str) -> (b: bool)
    ensures
        b == parses_i64(s@),
{
    s.parse::<i64>().is_ok()
}

/// An index that still needs `as usize`: not converted yet, not a range,
/// not an integer literal.
pub open spec fn transformable(idx: Seq<char>) -> bool {
    !contains(idx, " as usize"@) && !contains(idx, ".."@) && !parses_i64(idx)
}

/// The pattern of an index on a variable.
pub open spec fn var_index_pat() -> Seq<char> {
    r"\b([a-zA-Z_][a-zA-Z0-9_]*)\[([a-zA-Z_][^\[\]]*)\]"@
}

/// The pattern of an index after another index.
pub open spec fn chained_index_pat() -> Seq<char> {
    r"\]\[([a-zA-Z_][^\[\]]*)\]"@
}

/// `a[i]` as `a[(i) as usize]`.
pub open spec fn rep_var_index(c: Seq<Option<Seq<char>>>) -> Seq<char> {
    let i = trim(grp(c, 2));
    if transformable(i) {
        grp(c, 1) + "[("@ + i + ") as usize]"@
    } else {
        grp(c, 0)
    }
}

/// `][j]` as `][(j) as usize]`.
pub open spec fn rep_chained_index(c: Seq<Option<Seq<char>>>) -> Seq<char> {
    let i = trim(grp(c, 1));
    if transformable(i) {
        "][("@ + i + ") as usize]"@
    } else {
        grp(c, 0)
    }
}

/// Some match `m` has a transformable index in group `k`.
pub open spec fn any_transformable(m: Seq<Seq<Option<Seq<char>>>>, k: int) -> bool {
    exists|j: int| 0 <= j < m.len() && transformable(trim(#[trigger] grp(m[j], k)))
}

/// The matches `m` (pieces `g`) with their indices converted.
pub open spec fn index_splice(g: Seq<Seq<char>>, m: Seq<Seq<Option<Seq<char>>>>, chained: bool) -> Seq<char> {
    if chained {
        splice(g, m.map_values(|c: Seq<Option<Seq<char>>>| rep_chained_index(c)))
    } else {
        splice(g, m.map_values(|c: Seq<Option<Seq<char>>>| rep_var_index(c)))
    }
}

/// One round of both passes, and whether it changed an index.
pub open spec fn index_round(s: Seq<char>) -> (Seq<char>, bool) {
    match regex_scan(var_index_pat(), s) {
        None => (s, false),
        Some((g, m)) => {
            let s1 = index_splice(g, m, false);
            let ch1 = any_transformable(m, 2);
            match regex_scan(chained_index_pat(), s1) {
                None => (s1, ch1),
                Some((g2, m2)) => (index_splice(g2, m2, true), ch1 || any_transformable(m2, 1)),
            }
        },
    }
}

/// Rounds repeated while one changes something, at most `n`.
pub open spec fn index_rounds(s: Seq<char>, n: nat) -> Seq<char>
    decreases n,
{
    if n == 0 {
        s
    } else {
        let (s1, ch) = index_round(s);
        if ch {
            index_rounds(s1, (n - 1) as nat)
        } else {
            s1
        }
    }
}

/// Array indices as `usize`, nested levels peeled one per round (at most
/// 32 rounds).
pub open spec fn rule_array_indices(src: Seq<char>) -> Result<Seq<char>, TranspileErrorView> {
    if !regex_valid(var_index_pat()) {
        Err(TranspileErrorView::TransformError(regex_error(var_index_pat())))
    } else if !regex_valid(chained_index_pat()) {
        Err(TranspileErrorView::TransformError(regex_error(chained_index_pat())))
    } else {
        Ok(index_rounds(src, 32))
    }
}

impl Translator {
    /// Whether an index still needs `as usize`.
    fn is_transformable(&self, idx: &Vec<char>) -> (b: bool)
        ensures
            b == transformable(idx@),
    {
        find_text(idx, " as usize").is_none() && find_text(idx, "..").is_none() && !parse_i64_ok(string_of(idx).as_str())
    }

    /// One pass of `pat` (group `k` holds the index): each transformable
    /// index converted, and whether any was.
    fn index_pass(&self, s: &str, chained: bool) -> (r: (String, bool))
        ensures
            ({
                let pat = if chained { chained_index_pat() } else { var_index_pat() };
                let k: int = if chained { 1 } else { 2 };
                &&& (regex_scan(pat, s@) is Some) == regex_valid(pat)
                &&& match regex_scan(pat, s@) {
                    None => r.0@ == s@ && !r.1,
                    Some((g, m)) => r.0@ == index_splice(g, m, chained) && r.1 == any_transformable(m, k),
                }
            }),
    {
        let pat: &str = if chained { r"\]\[([a-zA-Z_][^\[\]]*)\]" } else { r"\b([a-zA-Z_][a-zA-Z0-9_]*)\[([a-zA-Z_][^\[\]]*)\]" };
        let k: usize = if chained { 1 } else { 2 };
        let (g, ms) = match regex_search(pat, s) {
            Ok(x) => x,
            Err(_) => {
                return (String::from_str(s), false);
            },
        };
        let ghost mv = matches_view(ms@);
        let mut reps: Vec<Vec<char>> = Vec::new();
        let mut ch = false;
        let mut i: usize = 0;
        while i < ms.len()
            invariant
                0 <= i <= ms.len(),
                mv == matches_view(ms@),
                k == (if chained { 1usize } else { 2usize }),
                reps@.len() == i,
                forall|q: int| 0 <= q < i ==> #[trigger] reps@[q]@ == (if chained { rep_chained_index(mv[q]) } else { rep_var_index(mv[q]) }),
                ch == exists|j: int| 0 <= j < i && transformable(trim(#[trigger] grp(mv[j], k as int))),
            decreases ms.len() - i,
        {
            assert(mv[i as int] == groups_view(ms@[i as int]));
            let c = &ms[i];
            let idx = trim_vec(&group(c, k));
            if self.is_transformable(&idx) {
                ch = true;
                let mut rep: Vec<char> = Vec::new();
                if chained {
                    push_str(&mut rep, "][(");
                } else {
                    append_vec(&mut rep, &group(c, 1));
                    push_str(&mut rep, "[(");
                }
                append_vec(&mut rep, &idx);
                push_str(&mut rep, ") as usize]");
                reps.push(rep);
            } else {
                reps.push(group(c, 0));
            }
            i = i + 1;
        }
        if chained {
            assert(vviews(reps@) =~= mv.map_values(|c: Seq<Option<Seq<char>>>| rep_chained_index(c)));
        } else {
            assert(vviews(reps@) =~= mv.map_values(|c: Seq<Option<Seq<char>>>| rep_var_index(c)));
        }
        (string_of(&splice_texts(&g, &reps)), ch)
    }

    /// Array indices as `usize`: `a[i]` becomes `a[(i) as usize]`, nested
    /// levels `][j]` peeled one per round while a round changes something
    /// (at most 32 rounds); literals, ranges and converted indices stay.
    pub fn transform_array_indices(&self, source: &str) -> (r: Result<String, TranspileError>)
        ensures
            result_view(r) == rule_array_indices(source@),
    {
        match regex_search(r"\b([a-zA-Z_][a-zA-Z0-9_]*)\[([a-zA-Z_][^\[\]]*)\]", "") {
            Ok(_) => {},
            Err(m) => {
                return Err(TranspileError::TransformError(m));
            },
        }
        match regex_search(r"\]\[([a-zA-Z_][^\[\]]*)\]", "") {
            Ok(_) => {},
            Err(m) => {
                return Err(TranspileError::TransformError(m));
            },
        }
        let mut cur = String::from_str(source);
        let mut n: usize = 32;
        let mut changed = true;
        while changed && n > 0
            invariant
                n <= 32,
                regex_valid(var_index_pat()),
                regex_valid(chained_index_pat()),
                index_rounds(source@, 32) == (if changed { index_rounds(cur@, n as nat) } else { cur@ }),
            decreases n,
        {
            let (s1, ch1) = self.index_pass(cur.as_str(), false);
            let (s2, ch2) = self.index_pass(s1.as_str(), true);
            assert(index_round(cur@) == (s2@, ch1 || ch2));
            cur = s2;
            changed = ch1 || ch2;
            n = n - 1;
        }
        Ok(cur)
    }
}


/// The content of an interface-methods map.
pub open spec fn imap_view(m: Seq<(String, Vec<String>)>) -> Seq<(Seq<char>, Seq<Seq<char>>)> {
    m.map_values(|p: (String, Vec<String>)| (p.0@, strings(p.1@)))
}

/// Entry lists with the same keys find a key at the same place.
proof fn lemma_index_keys<V, W>(e1: Seq<(String, V)>, e2: Seq<(String, W)>, k: Seq<char>)
    requires
        e1.len() == e2.len(),
        forall|i: int| 0 <= i < e1.len() ==> #[trigger] e1[i].0@ == e2[i].0@,
    ensures
        index_in(e1, k) == index_in(e2, k),
    decreases e1.len(),
{
    if e1.len() > 0 {
        assert(e1[0].0@ == e2[0].0@);
        assert forall|i: int| 0 <= i < e1.drop_first().len() implies #[trigger] e1.drop_first()[i].0@ == e2.drop_first()[i].0@ by {
            assert(e1[i + 1].0@ == e2[i + 1].0@);
        }
        lemma_index_keys(e1.drop_first(), e2.drop_first(), k);
    }
}

proof fn lemma_holds_cong(v1: Seq<String>, v2: Seq<String>, x: Seq<char>)
    requires
        strings(v1) == strings(v2),
    ensures
        holds_text(v1, x) == holds_text(v2, x),
{
    assert(v1.len() == strings(v1).len());
    if holds_text(v1, x) {
        let i = choose|i: int| 0 <= i < v1.len() && v1[i]@ == x;
        assert(strings(v1)[i] == v1[i]@);
        assert(strings(v2)[i] == v2[i]@);
    }
    if holds_text(v2, x) {
        let i = choose|i: int| 0 <= i < v2.len() && v2[i]@ == x;
        assert(strings(v1)[i] == v1[i]@);
        assert(strings(v2)[i] == v2[i]@);
    }
}

/// The content of a list of methods.
pub open spec fn methods_view(ms: Seq<ClassMethod>) -> Seq<(Seq<char>, Seq<char>, Seq<char>, Option<Seq<char>>, bool)> {
    ms.map_values(|m: ClassMethod| method_view(m))
}

/// The content of a list of fields.
pub open spec fn fields_view(fs: Seq<ClassField>) -> Seq<(Seq<char>, Seq<char>, bool)> {
    fs.map_values(|f: ClassField| field_view(f))
}

proof fn lemma_fields_text_cong(f1: Seq<ClassField>, f2: Seq<ClassField>)
    requires
        fields_view(f1) == fields_view(f2),
    ensures
        fields_text(f1) == fields_text(f2),
    decreases f1.len(),
{
    assert(f1.len() == fields_view(f1).len());
    if f1.len() > 0 {
        let n = f1.len() - 1;
        assert(fields_view(f1)[n] == field_view(f1[n]));
        assert(fields_view(f2)[n] == field_view(f2[n]));
        assert(fields_view(f1.drop_last()) =~= fields_view(f1).drop_last());
        assert(fields_view(f2.drop_last()) =~= fields_view(f2).drop_last());
        lemma_fields_text_cong(f1.drop_last(), f2.drop_last());
        assert(vis_text(f1.last().visibility) == vis_text(f2.last().visibility));
    }
}

/// The method views of `ms1` and `ms2` agree up to `k`, one by one.
pub open spec fn same_methods(ms1: Seq<ClassMethod>, ms2: Seq<ClassMethod>) -> bool {
    ms1.len() == ms2.len() && forall|i: int| 0 <= i < ms1.len() ==> method_view(#[trigger] ms1[i]) == method_view(ms2[i])
}

proof fn lemma_same_methods(ms1: Seq<ClassMethod>, ms2: Seq<ClassMethod>)
    requires
        ms1.map_values(|m: ClassMethod| method_view(m)) == ms2.map_values(|m: ClassMethod| method_view(m)),
    ensures
        same_methods(ms1, ms2),
{
    assert(ms1.len() == ms1.map_values(|m: ClassMethod| method_view(m)).len());
    assert forall|i: int| 0 <= i < ms1.len() implies method_view(#[trigger] ms1[i]) == method_view(ms2[i]) by {
        assert(ms1.map_values(|m: ClassMethod| method_view(m))[i] == method_view(ms1[i]));
        assert(ms2.map_values(|m: ClassMethod| method_view(m))[i] == method_view(ms2[i]));
    }
}

proof fn lemma_method_parts(a: ClassMethod, b: ClassMethod)
    requires
        method_view(a) == method_view(b),
    ensures
        a.name@ == b.name@,
        a.ret_type@ == b.ret_type@,
        a.params@ == b.params@,
        vis_text(a.visibility) == vis_text(b.visibility),
        a.body is Some <==> b.body is Some,
        a.body is Some ==> a.body.unwrap()@ == b.body.unwrap()@,
{
}

proof fn lemma_trait_methods_cong(ms1: Seq<ClassMethod>, ms2: Seq<ClassMethod>, tm1: Seq<String>, tm2: Seq<String>)
    requires
        same_methods(ms1, ms2),
        strings(tm1) == strings(tm2),
    ensures
        trait_methods_text(ms1, tm1) == trait_methods_text(ms2, tm2),
    decreases ms1.len(),
{
    if ms1.len() > 0 {
        let n = ms1.len() - 1;
        assert(method_view(ms1[n]) == method_view(ms2[n]));
        assert(same_methods(ms1.drop_last(), ms2.drop_last())) by {
            assert forall|i: int| 0 <= i < n implies method_view(#[trigger] ms1.drop_last()[i]) == method_view(ms2.drop_last()[i]) by {
                assert(method_view(ms1[i]) == method_view(ms2[i]));
            }
        }
        lemma_trait_methods_cong(ms1.drop_last(), ms2.drop_last(), tm1, tm2);
        lemma_method_parts(ms1.last(), ms2.last());
        lemma_holds_cong(tm1, tm2, snake(ms1.last().name@));
    }
}

proof fn lemma_trait_impls_cong(class: Seq<char>, ifs: Seq<Seq<char>>, ms1: Seq<ClassMethod>, ms2: Seq<ClassMethod>, tm1: Seq<String>, tm2: Seq<String>)
    requires
        same_methods(ms1, ms2),
        strings(tm1) == strings(tm2),
    ensures
        trait_impls_text(class, ifs, ms1, tm1) == trait_impls_text(class, ifs, ms2, tm2),
    decreases ifs.len(),
{
    if ifs.len() > 0 {
        lemma_trait_impls_cong(class, ifs.drop_last(), ms1, ms2, tm1, tm2);
        lemma_trait_methods_cong(ms1, ms2, tm1, tm2);
    }
}

proof fn lemma_inherent_methods_cong(ms1: Seq<ClassMethod>, ms2: Seq<ClassMethod>, parent: Option<Seq<char>>, fm: Seq<(Seq<char>, Seq<char>)>)
    requires
        same_methods(ms1, ms2),
    ensures
        inherent_methods_text(ms1, parent, fm) == inherent_methods_text(ms2, parent, fm),
    decreases ms1.len(),
{
    if ms1.len() > 0 {
        let n = ms1.len() - 1;
        assert(method_view(ms1[n]) == method_view(ms2[n]));
        assert(same_methods(ms1.drop_last(), ms2.drop_last())) by {
            assert forall|i: int| 0 <= i < n implies method_view(#[trigger] ms1.drop_last()[i]) == method_view(ms2.drop_last()[i]) by {
                assert(method_view(ms1[i]) == method_view(ms2[i]));
            }
        }
        lemma_inherent_methods_cong(ms1.drop_last(), ms2.drop_last(), parent, fm);
        lemma_method_parts(ms1.last(), ms2.last());
    }
}

proof fn lemma_inherent_impl_cong(class: Seq<char>, ms1: Seq<ClassMethod>, ms2: Seq<ClassMethod>, t1: Seq<(String, ClassInfo)>, t2: Seq<(String, ClassInfo)>, source: Seq<char>)
    requires
        same_methods(ms1, ms2),
        table_view(t1) == table_view(t2),
    ensures
        inherent_impl_text(class, ms1, t1, source) == inherent_impl_text(class, ms2, t2, source),
{
    lemma_parent_view(t1, class);
    lemma_parent_view(t2, class);
    lemma_field_paths_v(source, t1, class);
    lemma_field_paths_v(source, t2, class);
    lemma_inherent_methods_cong(ms1, ms2, parent_of(t1, class), field_paths(source, t1, class));
}

proof fn lemma_implements_cong(t1: Seq<(String, ClassInfo)>, t2: Seq<(String, ClassInfo)>, c: Seq<char>, i: Seq<char>)
    requires
        table_view(t1) == table_view(t2),
    ensures
        implements(t1, c, i) == implements(t2, c, i),
{
    lemma_first_key_info(t1, c);
    lemma_first_key_info(t2, c);
    crate::table::lemma_index_in(t1, c);
    match index_in(t1, c) {
        Some(k) => {
            assert(table_view(t1)[k] == table_view(t2)[k]);
            assert(table_view(t1)[k] == (t1[k].0@, info_view(t1[k].1)));
            assert(table_view(t2)[k] == (t2[k].0@, info_view(t2[k].1)));
            lemma_holds_cong(t1[k].1.interfaces@, t2[k].1.interfaces@, i);
        },
        None => {},
    }
}

proof fn lemma_deleg_search_cong(t1: Seq<(String, ClassInfo)>, t2: Seq<(String, ClassInfo)>, iface: Seq<char>, chain: Seq<Seq<char>>, k: int, visited: Seq<Seq<char>>, path: Seq<char>)
    requires
        table_view(t1) == table_view(t2),
    ensures
        deleg_search(t1, iface, chain, k, visited, path) == deleg_search(t2, iface, chain, k, visited, path),
    decreases chain.len() - k,
{
    if 0 <= k < chain.len() {
        lemma_implements_cong(t1, t2, chain[k], iface);
        lemma_deleg_search_cong(t1, t2, iface, chain, k + 1, visited.push(chain[k]), path + "."@ + chain[k]);
    }
}

proof fn lemma_iface_methods_cong(m1: Seq<(String, Vec<String>)>, m2: Seq<(String, Vec<String>)>, iface: Seq<char>)
    requires
        imap_view(m1) == imap_view(m2),
    ensures
        iface_methods(m1, iface) == iface_methods(m2, iface),
{
    assert(m1.len() == imap_view(m1).len());
    assert forall|i: int| 0 <= i < m1.len() implies #[trigger] m1[i].0@ == m2[i].0@ by {
        assert(imap_view(m1)[i] == imap_view(m2)[i]);
    }
    lemma_index_keys(m1, m2, iface);
    crate::table::lemma_index_in(m1, iface);
    match index_in(m1, iface) {
        Some(k) => {
            assert(imap_view(m1)[k] == imap_view(m2)[k]);
        },
        None => {},
    }
}

proof fn lemma_deleg_impls_cong(class: Seq<char>, ifs: Seq<Seq<char>>, parent: Option<Seq<char>>, chain: Seq<Seq<char>>, m1: Seq<(String, Vec<String>)>, m2: Seq<(String, Vec<String>)>, t1: Seq<(String, ClassInfo)>, t2: Seq<(String, ClassInfo)>, source: Seq<char>)
    requires
        imap_view(m1) == imap_view(m2),
        table_view(t1) == table_view(t2),
    ensures
        deleg_impls_text(class, ifs, parent, chain, m1, t1, source) == deleg_impls_text(class, ifs, parent, chain, m2, t2, source),
    decreases ifs.len(),
{
    if ifs.len() > 0 {
        lemma_deleg_impls_cong(class, ifs.drop_last(), parent, chain, m1, m2, t1, t2, source);
        lemma_iface_methods_cong(m1, m2, ifs.last());
        match parent {
            Some(p) => {
                lemma_implements_cong(t1, t2, p, ifs.last());
                lemma_deleg_search_cong(t1, t2, ifs.last(), chain, 1, seq![p], "self."@ + p);
            },
            None => {},
        }
    }
}

proof fn lemma_inherited_cong(m1: Seq<(String, Vec<String>)>, m2: Seq<(String, Vec<String>)>, own: Seq<Seq<char>>)
    requires
        imap_view(m1) == imap_view(m2),
    ensures
        inherited_ifaces(m1, own) == inherited_ifaces(m2, own),
    decreases m1.len(),
{
    assert(m1.len() == imap_view(m1).len());
    if m1.len() > 0 {
        assert(imap_view(m1.drop_last()) =~= imap_view(m1).drop_last());
        assert(imap_view(m2.drop_last()) =~= imap_view(m2).drop_last());
        lemma_inherited_cong(m1.drop_last(), m2.drop_last(), own);
        assert(imap_view(m1)[m1.len() - 1] == imap_view(m2)[m1.len() - 1]);
    }
}


/// `acc` with each of `xs` not in it yet appended.
pub open spec fn add_new(acc: Seq<Seq<char>>, xs: Seq<Seq<char>>) -> Seq<Seq<char>>
    decreases xs.len(),
{
    if xs.len() == 0 {
        acc
    } else {
        let a = add_new(acc, xs.drop_last());
        if a.contains(xs.last()) {
            a
        } else {
            a.push(xs.last())
        }
    }
}

/// The interfaces of a class: its own, then each one an ancestor of
/// `chain` (table `tv`) declares that is not met yet.
pub open spec fn chain_ifaces(own: Seq<Seq<char>>, tv: Seq<(Seq<char>, (Option<Seq<char>>, Seq<Seq<char>>))>, chain: Seq<Seq<char>>) -> Seq<Seq<char>>
    decreases chain.len(),
{
    if chain.len() == 0 {
        own
    } else {
        let a = chain_ifaces(own, tv, chain.drop_last());
        match first_key(tv, chain.last()) {
            Some(k) => add_new(a, tv[k].1.1),
            None => a,
        }
    }
}

/// For the first `k` interfaces `ifs` whose trait `src` holds: the method
/// names of all of them, and each interface mapped to its own.
pub open spec fn iface_rows(src: Seq<char>, ifs: Seq<Seq<char>>, k: int) -> (Seq<Seq<char>>, Seq<(Seq<char>, Seq<Seq<char>>)>)
    decreases k,
{
    if k <= 0 {
        (Seq::empty(), Seq::empty())
    } else {
        let prev = iface_rows(src, ifs, k - 1);
        let name = ifs[k - 1];
        match regex_scan(trait_pat(name), src) {
            Some((g, m)) => if m.len() > 0 {
                match regex_scan(fn_name_pat(), grp(m[0], 1)) {
                    Some((g2, m2)) => (prev.0 + group1s(m2), put_view(prev.1, name, group1s(m2))),
                    None => prev,
                }
            } else {
                prev
            },
            None => prev,
        }
    }
}

/// The Rust code of the class found with groups `c` (public, name, parent,
/// interfaces, body): its struct, a trait impl per declared interface, a
/// forwarding impl per inherited one, and its inherent impl. `tv` is the
/// inheritance table of `src`.
pub open spec fn rep_class(src: Seq<char>, tv: Seq<(Seq<char>, (Option<Seq<char>>, Seq<Seq<char>>))>, c: Seq<Option<Seq<char>>>) -> Seq<char> {
    let name = grp(c, 2);
    let parent = opt_grp(c, 3);
    let cb = class_body(grp(c, 5));
    let own = own_ifaces(opt_grp(c, 4));
    let chain = chain_view(tv, parent, Seq::empty(), (tv.len() + 1) as nat);
    let all = chain_ifaces(own, tv, chain);
    let rows = iface_rows(src, all, all.len() as int);
    let t = choose|t: Seq<(String, ClassInfo)>| table_view(t) == tv;
    let fs = choose|fs: Seq<ClassField>| fields_view(fs) == cb.0;
    let ms = choose|ms: Seq<ClassMethod>| methods_view(ms) == cb.1;
    let tm = choose|tm: Seq<String>| strings(tm) == rows.0;
    let mp = choose|mp: Seq<(String, Vec<String>)>| imap_view(mp) == rows.1;
    struct_text(name, fs, parent, has_grp(c, 1)) + "\n"@ + trait_impls_text(name, own, ms, tm) + deleg_impls_text(
        name,
        inherited_ifaces(mp, own),
        parent,
        chain,
        mp,
        t,
        src,
    ) + inherent_impl_text(name, ms, t, src)
}

/// `s` with every copy of the first `k` nested definitions removed.
pub open spec fn strip_defs(s: Seq<char>, defs: Seq<(Seq<char>, Seq<char>)>, k: int) -> Seq<char>
    decreases k,
{
    if k <= 0 {
        s
    } else {
        remove_all(strip_defs(s, defs, k - 1), defs[k - 1].1)
    }
}

/// A nested definition the flattening can read: it has a `{`, and no `}`
/// before it closes.
pub open spec fn flat_ok(d: Seq<char>) -> bool {
    has_char(d, '{') && (last_idx_of(d, '}') < 0 || last_idx_of(d, '}') > idx_of(d, '{'))
}

/// The flattened code of the first `k` nested classes.
pub open spec fn nested_code(defs: Seq<(Seq<char>, Seq<char>)>, k: int) -> Seq<char>
    decreases k,
{
    if k <= 0 {
        Seq::empty()
    } else {
        nested_code(defs, k - 1) + (if flat_ok(defs[k - 1].1) {
            flat_class_text(flat_name(defs[k - 1].0), defs[k - 1].1) + "\n"@
        } else {
            Seq::empty()
        })
    }
}

/// The pattern of a class definition.
pub open spec fn class_full_pat() -> Seq<char> {
    r"(?m)^\s*(public\s+)?class\s+([a-zA-Z_][a-zA-Z0-9_]*)\s*(?:extends\s+(\w+))?\s*(?:implements\s+([\w,\s]+))?\s*\{([\s\S]*?)^\}"@
}

/// Classes as Rust structs and impls; nested classes flattened after them.
pub open spec fn rule_class_defs(src: Seq<char>) -> Result<Seq<char>, TranspileErrorView> {
    let defs = nested_table(src).1;
    let cl = strip_defs(src, defs, defs.len() as int);
    match regex_scan(class_full_pat(), cl) {
        None => Err(TranspileErrorView::TransformError(regex_error(class_full_pat()))),
        Some((g, m)) => {
            let r1 = splice(g, m.map_values(|c: Seq<Option<Seq<char>>>| rep_class(src, class_table_of(src), c)));
            Ok(if defs.len() == 0 {
                r1
            } else {
                r1 + "\n\n// Nested classes (flattened)\n"@ + nested_code(defs, defs.len() as int)
            })
        },
    }
}

proof fn lemma_put_imap(e: Seq<(String, Vec<String>)>, k: String, v: Vec<String>)
    ensures
        imap_view(crate::table::put(e, k, v)) == put_view(imap_view(e), k@, strings(v@)),
{
    lemma_first_key_imap(e, k@);
    match index_in(e, k@) {
        Some(i) => {
            crate::table::lemma_index_in(e, k@);
            assert(imap_view(e.update(i, (k, v))) =~= imap_view(e).update(i, (k@, strings(v@))));
        },
        None => {
            assert(imap_view(e.push((k, v))) =~= imap_view(e).push((k@, strings(v@))));
        },
    }
}

proof fn lemma_first_key_imap(e: Seq<(String, Vec<String>)>, k: Seq<char>)
    ensures
        first_key(imap_view(e), k) == index_in(e, k),
    decreases e.len(),
{
    if e.len() > 0 {
        assert(imap_view(e).drop_first() =~= imap_view(e.drop_first()));
        lemma_first_key_imap(e.drop_first(), k);
    }
}

/// The ancestors met walking up from `start`, as [`chain`] does.
fn chain_from(t: &StrMap<ClassInfo>, start: Option<String>) -> (r: Vec<String>)
    ensures
        strings(r@) == chain(t.entries@, start.deep_view(), Seq::empty(), (t.entries@.len() + 1) as nat),
{
    let mut seen: Vec<String> = Vec::new();
    let ghost s0 = start.deep_view();
    let mut cur = start;
    let mut fuel: usize = t.entries.len();
    let mut more = true;
    assert(strings(seen@) =~= Seq::<Seq<char>>::empty());
    while more
        invariant
            fuel <= t.entries.len(),
            more ==> chain(t.entries@, s0, Seq::empty(), (t.entries@.len() + 1) as nat) == chain(t.entries@, cur.deep_view(), strings(seen@), (fuel + 1) as nat),
            !more ==> chain(t.entries@, s0, Seq::empty(), (t.entries@.len() + 1) as nat) == strings(seen@),
        decreases fuel + (if more { 1int } else { 0int }),
    {
        let c0 = cur;
        cur = None;
        match c0 {
            Some(p) => {
                let pv = chars_of(p.as_str());
                if has_text(&seen, &pv) {
                    more = false;
                } else {
                    let next = parent_in(t, p.as_str());
                    let ghost sv0 = strings(seen@);
                    seen.push(p);
                    assert(strings(seen@) =~= sv0.push(pv@));
                    if fuel == 0 {
                        proof {
                            let c2 = next.deep_view();
                            assert(chain(t.entries@, c2, strings(seen@), 0) == strings(seen@));
                        }
                        more = false;
                    } else {
                        fuel = fuel - 1;
                    }
                    cur = next;
                }
            },
            None => {
                more = false;
            },
        }
    }
    seen
}

impl Translator {
    /// The interfaces of a class: its own `own`, then each one an ancestor
    /// of `chain` declares that is not met yet.
    fn chain_interfaces(&self, own: &Vec<Vec<char>>, chain: &Vec<String>, t: &StrMap<ClassInfo>) -> (r: Vec<Vec<char>>)
        ensures
            vviews(r@) == chain_ifaces(vviews(own@), table_view(t.entries@), strings(chain@)),
    {
        let ghost tv = table_view(t.entries@);
        let ghost cv = strings(chain@);
        let mut all: Vec<Vec<char>> = Vec::new();
        let mut i: usize = 0;
        while i < own.len()
            invariant
                0 <= i <= own.len(),
                vviews(all@) == vviews(own@).subrange(0, i as int),
            decreases own.len() - i,
        {
            let ghost a0 = vviews(all@);
            let cp = sub_vec_copy(&own[i]);
            all.push(cp);
            assert(vviews(all@) =~= a0.push(own@[i as int]@));
            assert(vviews(own@).subrange(0, i + 1) =~= vviews(own@).subrange(0, i as int).push(own@[i as int]@));
            i = i + 1;
        }
        assert(vviews(own@).subrange(0, own.len() as int) =~= vviews(own@));
        let mut k: usize = 0;
        assert(cv.subrange(0, 0) =~= Seq::<Seq<char>>::empty());
        while k < chain.len()
            invariant
                0 <= k <= chain.len(),
                tv == table_view(t.entries@),
                cv == strings(chain@),
                vviews(all@) == chain_ifaces(vviews(own@), tv, cv.subrange(0, k as int)),
            decreases chain.len() - k,
        {
            let ghost pre = cv.subrange(0, k + 1);
            assert(pre.drop_last() =~= cv.subrange(0, k as int));
            assert(pre.last() == chain@[k as int]@);
            proof {
                lemma_first_key_info(t.entries@, chain@[k as int]@);
                crate::table::lemma_index_in(t.entries@, chain@[k as int]@);
            }
            match t.get(chain[k].as_str()) {
                Some(info) => {
                    let ghost ki = index_in(t.entries@, chain@[k as int]@).unwrap();
                    assert(tv[ki].1.1 == strings(info.interfaces@));
                    let ghost base = vviews(all@);
                    let ghost xs = strings(info.interfaces@);
                    let mut j: usize = 0;
                    assert(xs.subrange(0, 0) =~= Seq::<Seq<char>>::empty());
                    while j < info.interfaces.len()
                        invariant
                            0 <= j <= info.interfaces.len(),
                            xs == strings(info.interfaces@),
                            vviews(all@) == add_new(base, xs.subrange(0, j as int)),
                        decreases info.interfaces.len() - j,
                    {
                        let ghost pj = xs.subrange(0, j + 1);
                        assert(pj.drop_last() =~= xs.subrange(0, j as int));
                        assert(pj.last() == info.interfaces@[j as int]@);
                        let x = chars_of(info.interfaces[j].as_str());
                        let mut found = false;
                        let mut q: usize = 0;
                        while q < all.len()
                            invariant
                                0 <= q <= all.len(),
                                j < info.interfaces.len(),
                                x@ == info.interfaces@[j as int]@,
                                found == exists|z: int| 0 <= z < q && all@[z]@ == x@,
                            decreases all.len() - q,
                        {
                            if same_text(&all[q], info.interfaces[j].as_str()) {
                                found = true;
                            }
                            q = q + 1;
                        }
                        proof {
                            if found {
                                let z = choose|z: int| 0 <= z < all@.len() && all@[z]@ == x@;
                                assert(vviews(all@)[z] == x@);
                            } else {
                                assert forall|z: int| 0 <= z < vviews(all@).len() implies vviews(all@)[z] != x@ by {
                                    assert(vviews(all@)[z] == all@[z]@);
                                }
                            }
                        }
                        if !found {
                            let ghost a0 = vviews(all@);
                            all.push(x);
                            assert(vviews(all@) =~= a0.push(x@));
                        }
                        j = j + 1;
                    }
                    assert(xs.subrange(0, info.interfaces.len() as int) =~= xs);
                },
                None => {},
            }
            k = k + 1;
        }
        assert(cv.subrange(0, chain.len() as int) =~= cv);
        all
    }

    /// The trait method names of the interfaces `ifs` found in `source`, and
    /// each interface mapped to its own.
    fn interface_rows(&self, source: &str, ifs: &Vec<Vec<char>>) -> (r: (Vec<String>, StrMap<Vec<String>>))
        ensures
            (strings(r.0@), imap_view(r.1.entries@)) == iface_rows(source@, vviews(ifs@), ifs@.len() as int),
    {
        let mut tm: Vec<String> = Vec::new();
        let mut mp: StrMap<Vec<String>> = StrMap::new();
        let mut i: usize = 0;
        assert(strings(tm@) =~= Seq::<Seq<char>>::empty());
        assert(imap_view(mp.entries@) =~= Seq::<(Seq<char>, Seq<Seq<char>>)>::empty());
        while i < ifs.len()
            invariant
                0 <= i <= ifs.len(),
                (strings(tm@), imap_view(mp.entries@)) == iface_rows(source@, vviews(ifs@), i as int),
            decreases ifs.len() - i,
        {
            assert(vviews(ifs@)[i as int] == ifs@[i as int]@);
            let mut pat: Vec<char> = Vec::new();
            push_str(&mut pat, r"(?s)trait\s+");
            append_vec(&mut pat, &ifs[i]);
            push_str(&mut pat, r"\s*\{([^}]*)\}");
            assert(pat@ == trait_pat(ifs@[i as int]@));
            match regex_search(string_of(&pat).as_str(), source) {
                Ok((_g, ms)) => {
                    if ms.len() > 0 {
                        assert(matches_view(ms@)[0] == groups_view(ms@[0]));
                        match regex_search(r"fn\s+([a-zA-Z_][a-zA-Z0-9_]*)\s*\(", string_of(&group(&ms[0], 1)).as_str()) {
                            Ok((_g2, m2)) => {
                                let ghost mv2 = matches_view(m2@);
                                let mut names: Vec<String> = Vec::new();
                                let mut j: usize = 0;
                                while j < m2.len()
                                    invariant
                                        0 <= j <= m2.len(),
                                        mv2 == matches_view(m2@),
                                        strings(names@) == group1s(mv2).subrange(0, j as int),
                                    decreases m2.len() - j,
                                {
                                    assert(mv2[j as int] == groups_view(m2@[j as int]));
                                    let ghost n0 = strings(names@);
                                    names.push(string_of(&group(&m2[j], 1)));
                                    assert(group1s(mv2)[j as int] == grp(mv2[j as int], 1));
                                    assert(strings(names@) =~= n0.push(grp(mv2[j as int], 1)));
                                    assert(group1s(mv2).subrange(0, j + 1) =~= group1s(mv2).subrange(0, j as int).push(grp(mv2[j as int], 1)));
                                    j = j + 1;
                                }
                                assert(group1s(mv2).subrange(0, m2.len() as int) =~= group1s(mv2));
                                let mut q: usize = 0;
                                let ghost t0 = strings(tm@);
                                while q < names.len()
                                    invariant
                                        0 <= q <= names.len(),
                                        strings(tm@) == t0 + strings(names@).subrange(0, q as int),
                                    decreases names.len() - q,
                                {
                                    let ghost tq = strings(tm@);
                                    tm.push(string_of(&chars_of(names[q].as_str())));
                                    assert(strings(names@)[q as int] == names@[q as int]@);
                                    assert(strings(tm@) =~= tq.push(names@[q as int]@));
                                    assert(strings(names@).subrange(0, q + 1) =~= strings(names@).subrange(0, q as int).push(names@[q as int]@));
                                    assert(strings(tm@) =~= t0 + strings(names@).subrange(0, q + 1));
                                    q = q + 1;
                                }
                                assert(strings(names@).subrange(0, names.len() as int) =~= strings(names@));
                                let ghost e0 = mp.entries@;
                                let key = string_of(&ifs[i]);
                                let ghost kg = key;
                                let ghost ng = names;
                                mp.insert(key, names);
                                proof {
                                    lemma_put_imap(e0, kg, ng);
                                }
                            },
                            Err(_) => {},
                        }
                    }
                },
                Err(_) => {},
            }
            i = i + 1;
        }
        (tm, mp)
    }
}


/// The texts built from values whose content is the same are the same: the
/// class code does not depend on which such values [`rep_class`] picks.
proof fn lemma_rep_class(
    src: Seq<char>,
    tv: Seq<(Seq<char>, (Option<Seq<char>>, Seq<Seq<char>>))>,
    c: Seq<Option<Seq<char>>>,
    t: Seq<(String, ClassInfo)>,
    fs: Seq<ClassField>,
    ms: Seq<ClassMethod>,
    tm: Seq<String>,
    mp: Seq<(String, Vec<String>)>,
)
    requires
        table_view(t) == tv,
        fields_view(fs) == class_body(grp(c, 5)).0,
        methods_view(ms) == class_body(grp(c, 5)).1,
        ({
            let own = own_ifaces(opt_grp(c, 4));
            let chain = chain_view(tv, opt_grp(c, 3), Seq::empty(), (tv.len() + 1) as nat);
            let rows = iface_rows(src, chain_ifaces(own, tv, chain), chain_ifaces(own, tv, chain).len() as int);
            strings(tm) == rows.0 && imap_view(mp) == rows.1
        }),
    ensures
        ({
            let name = grp(c, 2);
            let parent = opt_grp(c, 3);
            let own = own_ifaces(opt_grp(c, 4));
            let chain = chain_view(tv, parent, Seq::empty(), (tv.len() + 1) as nat);
            rep_class(src, tv, c) == struct_text(name, fs, parent, has_grp(c, 1)) + "\n"@ + trait_impls_text(name, own, ms, tm)
                + deleg_impls_text(name, inherited_ifaces(mp, own), parent, chain, mp, t, src) + inherent_impl_text(name, ms, t, src)
        }),
{
    let name = grp(c, 2);
    let parent = opt_grp(c, 3);
    let cb = class_body(grp(c, 5));
    let own = own_ifaces(opt_grp(c, 4));
    let chain = chain_view(tv, parent, Seq::empty(), (tv.len() + 1) as nat);
    let all = chain_ifaces(own, tv, chain);
    let rows = iface_rows(src, all, all.len() as int);
    let t2 = choose|t2: Seq<(String, ClassInfo)>| table_view(t2) == tv;
    let fs2 = choose|fs2: Seq<ClassField>| fields_view(fs2) == cb.0;
    let ms2 = choose|ms2: Seq<ClassMethod>| methods_view(ms2) == cb.1;
    let tm2 = choose|tm2: Seq<String>| strings(tm2) == rows.0;
    let mp2 = choose|mp2: Seq<(String, Vec<String>)>| imap_view(mp2) == rows.1;
    assert(table_view(t2) == tv);
    assert(fields_view(fs2) == cb.0);
    assert(methods_view(ms2) == cb.1);
    assert(strings(tm2) == rows.0);
    assert(imap_view(mp2) == rows.1);
    lemma_fields_text_cong(fs, fs2);
    lemma_same_methods(ms, ms2);
    lemma_trait_impls_cong(name, own, ms, ms2, tm, tm2);
    lemma_inherited_cong(mp, mp2, own);
    lemma_deleg_impls_cong(name, inherited_ifaces(mp, own), parent, chain, mp, mp2, t, t2, src);
    lemma_inherent_impl_cong(name, ms, ms2, t, t2, src);
}

impl Translator {
    /// The Rust code of the class found with groups `c`.
    #[verifier::rlimit(60)]
    fn class_code(&self, c: &Vec<Option<String>>, t: &StrMap<ClassInfo>, source: &str) -> (r: Vec<char>)
        ensures
            r@ == rep_class(source@, table_view(t.entries@), groups_view(*c)),
    {
        let ghost cv = groups_view(*c);
        let ghost tv = table_view(t.entries@);
        let name = string_of(&group(c, 2));
        let parent: Option<String> = if has_group(c, 3) {
            Some(string_of(&group(c, 3)))
        } else {
            None
        };
        let ifs: Option<String> = if has_group(c, 4) {
            Some(string_of(&group(c, 4)))
        } else {
            None
        };
        assert(parent.deep_view() == opt_grp(cv, 3));
        let body = string_of(&group(c, 5));
        let (fields, methods) = self.parse_class_body(body.as_str());
        assert(fields_view(fields@) == class_body(grp(cv, 5)).0);
        assert(methods_view(methods@) == class_body(grp(cv, 5)).1);
        let own: Vec<Vec<char>> = match &ifs {
            Some(x) => comma_names(&chars_of(x.as_str())),
            None => Vec::new(),
        };
        assert(vviews(own@) == own_ifaces(opt_grp(cv, 4)));
        let pclone: Option<String> = match &parent {
            Some(p) => Some(string_of(&chars_of(p.as_str()))),
            None => None,
        };
        assert(pclone.deep_view() == parent.deep_view());
        let chain = chain_from(t, pclone);
        proof {
            lemma_chain_view(t.entries@, opt_grp(cv, 3), Seq::empty(), (t.entries@.len() + 1) as nat);
        }
        let all = self.chain_interfaces(&own, &chain, t);
        let (tm, mp) = self.interface_rows(source, &all);
        let pref: Option<&str> = match &parent {
            Some(p) => Some(p.as_str()),
            None => None,
        };
        let iref: Option<&str> = match &ifs {
            Some(x) => Some(x.as_str()),
            None => None,
        };
        let st = self.generate_struct(name.as_str(), &fields, pref, has_group(c, 1));
        let im = self.generate_impl_with_delegation(name.as_str(), &methods, pref, iref, &tm, &chain, &mp, t, source);
        let mut out = chars_of(st.as_str());
        push_str(&mut out, "\n");
        push_str(&mut out, im.as_str());
        proof {
            lemma_rep_class(source@, tv, cv, t.entries@, fields@, methods@, tm@, mp.entries@);
        }
        out
    }

    /// Classes as Rust: each `class` becomes a struct (with a field for its
    /// parent), a trait impl per declared interface, a forwarding impl per
    /// interface an ancestor declares, and an inherent impl; nested classes
    /// are taken out and flattened to `Outer_Inner` after the rest.
    pub fn transform_class_definitions(&self, source: &str) -> (r: Result<String, TranspileError>)
        ensures
            result_view(r) == rule_class_defs(source@),
    {
        let t = self.extract_class_table(source);
        let nt = self.extract_nested_class_table(source);
        let ghost defs = nested_table(source@).1;
        assert(path_map_view(nt.nested_defs.entries@) == defs);
        let mut cleaned = chars_of(source);
        let mut k: usize = 0;
        while k < nt.nested_defs.entries.len()
            invariant
                0 <= k <= nt.nested_defs.entries.len(),
                path_map_view(nt.nested_defs.entries@) == defs,
                cleaned@ == strip_defs(source@, defs, k as int),
            decreases nt.nested_defs.entries.len() - k,
        {
            assert(defs[k as int] == (nt.nested_defs.entries@[k as int].0@, nt.nested_defs.entries@[k as int].1@));
            cleaned = remove_all_vec(&cleaned, nt.nested_defs.entries[k].1.as_str());
            k = k + 1;
        }
        let cs = string_of(&cleaned);
        let (g, ms) = match regex_search(r"(?m)^\s*(public\s+)?class\s+([a-zA-Z_][a-zA-Z0-9_]*)\s*(?:extends\s+(\w+))?\s*(?:implements\s+([\w,\s]+))?\s*\{([\s\S]*?)^\}", cs.as_str()) {
            Ok(x) => x,
            Err(m) => {
                return Err(TranspileError::TransformError(m));
            },
        };
        let ghost mv = matches_view(ms@);
        let ghost tv = class_table_of(source@);
        let mut reps: Vec<Vec<char>> = Vec::new();
        let mut i: usize = 0;
        while i < ms.len()
            invariant
                0 <= i <= ms.len(),
                mv == matches_view(ms@),
                tv == class_table_of(source@),
                table_view(t.entries@) == tv,
                reps@.len() == i,
                forall|q: int| 0 <= q < i ==> #[trigger] reps@[q]@ == rep_class(source@, tv, mv[q]),
            decreases ms.len() - i,
        {
            assert(mv[i as int] == groups_view(ms@[i as int]));
            reps.push(self.class_code(&ms[i], &t, source));
            i = i + 1;
        }
        assert(vviews(reps@) =~= mv.map_values(|c: Seq<Option<Seq<char>>>| rep_class(source@, class_table_of(source@), c)));
        let mut out = splice_texts(&g, &reps);
        if nt.nested_defs.entries.len() > 0 {
            push_str(&mut out, "\n\n// Nested classes (flattened)\n");
            let ghost head = out@;
            let mut q: usize = 0;
            while q < nt.nested_defs.entries.len()
                invariant
                    0 <= q <= nt.nested_defs.entries.len(),
                    path_map_view(nt.nested_defs.entries@) == defs,
                    out@ == head + nested_code(defs, q as int),
                decreases nt.nested_defs.entries.len() - q,
            {
                assert(defs[q as int] == (nt.nested_defs.entries@[q as int].0@, nt.nested_defs.entries@[q as int].1@));
                let d = chars_of(nt.nested_defs.entries[q].1.as_str());
                let mut lo: usize = 0;
                while lo < d.len() && d[lo] != '{'
                    invariant
                        0 <= lo <= d.len(),
                        forall|z: int| 0 <= z < lo ==> d@[z] != '{',
                    decreases d.len() - lo,
                {
                    lo = lo + 1;
                }
                if lo < d.len() {
                    proof {
                        crate::text::lemma_idx_of(d@, '{', lo as int);
                    }
                    let ok = match rfind_char(&d, '}') {
                        Some(e) => e > lo,
                        None => true,
                    };
                    if ok {
                        let flat = flat_name_vec(&chars_of(nt.nested_defs.entries[q].0.as_str()));
                        let code = self.generate_flat_nested_class(string_of(&flat).as_str(), nt.nested_defs.entries[q].1.as_str());
                        push_str(&mut out, code.as_str());
                        push_str(&mut out, "\n");
                    }
                } else {
                    assert(!has_char(d@, '{'));
                }
                q = q + 1;
            }
        }
        Ok(string_of(&out))
    }
}


/// A check's outcome, passing `s` on when it succeeds.
pub open spec fn check_then(c: Result<(), TranspileErrorView>, s: Seq<char>) -> Result<Seq<char>, TranspileErrorView> {
    match c {
        Ok(()) => Ok(s),
        Err(e) => Err(e),
    }
}

/// Stage `i` of the translation, applied to `s`, in the order the rules
/// run: interfaces, interface visibility, inherited field access, classes,
/// `use` lines, functions, the array checks, arrays, loops, declarations,
/// strings, conditions, objects, calls, slices, casts, float literals and
/// indices.
pub open spec fn stage(i: int, s: Seq<char>) -> Result<Seq<char>, TranspileErrorView> {
    if i == 0 {
        rule_interfaces(s)
    } else if i == 1 {
        check_then(rule_impl_visibility(s), s)
    } else if i == 2 {
        Ok(rule_inherited_access(s))
    } else if i == 3 {
        rule_class_defs(s)
    } else if i == 4 {
        rule_remove_use(s)
    } else if i == 5 {
        rule_functions(s)
    } else if i == 6 {
        check_then(reject_rule(r"\bconst\s+(?:i8|i16|i32|i64|u8|u16|u32|u64|f32|f64|bool)(?:\s*\[|\s+[a-zA-Z_][a-zA-Z0-9_]*\s*\[)"@, s, const_array_msg()), s)
    } else if i == 7 {
        check_then(rule_static_to_vec(s), s)
    } else if i == 8 {
        check_then(check_dims(s, const_dim_names(s)), s)
    } else if i == 9 {
        check_then(reject_rule(r"\bconst\s+(?:i8|i16|i32|i64|u8|u16|u32|u64|f32|f64|bool|char|String)\s+[a-zA-Z_][a-zA-Z0-9_]*(?:\s*,\s*[a-zA-Z_][a-zA-Z0-9_]*)*\s*;"@, s, const_no_init_msg()), s)
    } else if i == 10 {
        rule_multi_array(s)
    } else if i == 11 {
        rule_array_decls(s)
    } else if i == 12 {
        rule_dynamic_array(s)
    } else if i == 13 {
        rule_empty_push(s)
    } else if i == 14 {
        rule_array_literal_assign(s)
    } else if i == 15 {
        rule_for_loops(s)
    } else if i == 16 {
        rule_var_decls(s)
    } else if i == 17 {
        rule_string_assign(s)
    } else if i == 18 {
        rule_condition_parens(s)
    } else if i == 19 {
        rule_string_init(s)
    } else if i == 20 {
        rule_string_literals(s)
    } else if i == 21 {
        rule_pass(s)
    } else if i == 22 {
        rule_class_inst(s)
    } else if i == 23 {
        rule_method_calls(s)
    } else if i == 24 {
        rule_array_slices(s)
    } else if i == 25 {
        rule_type_cast(s)
    } else if i == 26 {
        rule_float_literals(s)
    } else {
        rule_array_indices(s)
    }
}

/// The first `n` stages applied in turn; the first error stops them.
pub open spec fn pipeline(s: Seq<char>, n: int) -> Result<Seq<char>, TranspileErrorView>
    decreases n,
{
    if n <= 0 {
        Ok(s)
    } else {
        match pipeline(s, n - 1) {
            Err(e) => Err(e),
            Ok(t) => stage(n - 1, t),
        }
    }
}

/// The line that lifts Rust's recursion limit for deep inheritance.
pub open spec fn recursion_line() -> Seq<char> {
    "#![recursion_limit = \"32767\"]\n\n"@
}

/// The translation of `src`: the reminder scan's errors first, then all
/// stages; the recursion limit is lifted when some inheritance chain holds
/// more than 100 classes.
pub open spec fn rule_transpile(src: Seq<char>) -> Result<Seq<char>, TranspileErrorView> {
    match init_reminders(src) {
        Err(e) => Err(e),
        Ok(_) => match pipeline(src, 28) {
            Err(e) => Err(e),
            Ok(out) => Ok(if max_depth(class_table_of(src), class_table_of(src).len() as int) > 100 {
                recursion_line() + out
            } else {
                out
            }),
        },
    }
}

proof fn lemma_pipeline_err(s: Seq<char>, k: int, n: int)
    requires
        0 <= k <= n,
        pipeline(s, k) is Err,
    ensures
        pipeline(s, n) == pipeline(s, k),
    decreases n - k,
{
    if k < n {
        lemma_pipeline_err(s, k, n - 1);
    }
}

impl Translator {
    /// Stage `i` of the translation on `s`.
    fn run_stage(&self, i: usize, s: &str) -> (r: Result<String, TranspileError>)
        ensures
            result_view(r) == stage(i as int, s@),
    {
        if i == 0 {
            self.transform_interface_definitions(s)
        } else if i == 1 {
            match self.check_interface_impl_visibility(s) {
                Ok(()) => Ok(String::from_str(s)),
                Err(e) => Err(e),
            }
        } else if i == 2 {
            self.transform_inherited_field_access(s)
        } else if i == 3 {
            self.transform_class_definitions(s)
        } else if i == 4 {
            self.remove_use_statements(s)
        } else if i == 5 {
            self.transform_function_definitions(s)
        } else if i == 6 {
            match Self::reject_const_array(s) {
                Ok(()) => Ok(String::from_str(s)),
                Err(e) => Err(e),
            }
        } else if i == 7 {
            match Self::reject_static_to_vec(s) {
                Ok(()) => Ok(String::from_str(s)),
                Err(e) => Err(e),
            }
        } else if i == 8 {
            let names = Self::scan_const_dim_names(s);
            match Self::check_array_dimensions(s, &names) {
                Ok(()) => Ok(String::from_str(s)),
                Err(e) => Err(e),
            }
        } else if i == 9 {
            match Self::reject_const_no_init(s) {
                Ok(()) => Ok(String::from_str(s)),
                Err(e) => Err(e),
            }
        } else if i == 10 {
            self.transform_multi_array_decl(s)
        } else if i == 11 {
            self.transform_array_declarations(s)
        } else if i == 12 {
            self.transform_dynamic_array_decl(s)
        } else if i == 13 {
            self.translate_empty_push(s)
        } else if i == 14 {
            self.transform_array_literal_assign(s)
        } else if i == 15 {
            self.transform_for_loop(s)
        } else if i == 16 {
            self.transform_variable_declarations(s)
        } else if i == 17 {
            self.translate_string_assign(s)
        } else if i == 18 {
            self.remove_condition_parens(s)
        } else if i == 19 {
            self.transform_string_init(s)
        } else if i == 20 {
            self.transform_string_literals_in_functions(s)
        } else if i == 21 {
            self.transform_pass(s)
        } else if i == 22 {
            self.transform_class_instantiation(s)
        } else if i == 23 {
            self.transform_method_calls(s)
        } else if i == 24 {
            self.transform_array_slices(s)
        } else if i == 25 {
            self.transform_type_cast(s)
        } else if i == 26 {
            self.transform_float_literals(s)
        } else {
            self.transform_array_indices(s)
        }
    }

    /// Hust source in Rust: every rule in turn (see [`rule_transpile`]),
    /// the first error stopping the translation.
    pub fn transpile(&self, source: &str) -> (r: Result<String, TranspileError>)
        requires
            source@.len() < usize::MAX,
        ensures
            result_view(r) == rule_transpile(source@),
    {
        let depth = self.compute_max_inheritance_depth(source);
        match self.remind_init_before_use(source) {
            Ok(_) => {},
            Err(e) => {
                return Err(e);
            },
        }
        let mut cur = String::from_str(source);
        let mut i: usize = 0;
        while i < 28
            invariant
                0 <= i <= 28,
                init_reminders(source@) is Ok,
                pipeline(source@, i as int) == Ok::<Seq<char>, TranspileErrorView>(cur@),
            decreases 28 - i,
        {
            match self.run_stage(i, cur.as_str()) {
                Ok(t) => {
                    cur = t;
                },
                Err(e) => {
                    proof {
                        lemma_pipeline_err(source@, i + 1, 28);
                    }
                    return Err(e);
                },
            }
            i = i + 1;
        }
        if depth > 100 {
            let mut out: Vec<char> = Vec::new();
            push_str(&mut out, "#![recursion_limit = \"32767\"]\n\n");
            push_str(&mut out, cur.as_str());
            Ok(string_of(&out))
        } else {
            Ok(cur)
        }
    }
}

/// Hust source in Rust with the default options.
pub fn transpile(source: &str) -> (r: Result<String, TranspileError>)
    requires
        source@.len() < usize::MAX,
    ensures
        result_view(r) == rule_transpile(source@),
{
    let t = Translator::default();
    t.transpile(source)
}

/// The pattern of a loop condition `v OP x.len()`.
pub open spec fn len_cond_pat() -> Seq<char> {
    r"^([a-zA-Z_]\w*)\s*(<=|>=|<|>)\s*([a-zA-Z_]\w*(?:\[[^\[\]]+\])*)\.len\(\)$"@
}

/// The pattern of a loop condition `x.len() OP v`.
pub open spec fn len_cond_rev_pat() -> Seq<char> {
    r"^([a-zA-Z_]\w*)\.len\(\)\s*(<=|>=|<|>)\s*([a-zA-Z_]\w*)$"@
}

/// A loop condition `v OP x.len()` keeps its operator: it becomes
/// `(v as usize) OP x.len()`, with `v`, `OP` and `x` as the condition has
/// them; `x.len() OP v` likewise becomes `x.len() OP (v as usize)`.
pub proof fn law_len_comparison_keeps_operator(cond: Seq<char>)
    ensures
        regex_scan(len_cond_pat(), trim(cond)) matches Some((g, m)) ==> (m.len() > 0 ==> len_cmp(cond) == "("@ + grp(
            m[0],
            1,
        ) + " as usize) "@ + grp(m[0], 2) + " "@ + grp(m[0], 3) + ".len()"@),
        (regex_scan(len_cond_pat(), trim(cond)) matches Some((g, m)) && m.len() == 0) ==> (regex_scan(
            len_cond_rev_pat(),
            trim(cond),
        ) matches Some((g2, m2)) ==> (m2.len() > 0 ==> len_cmp(cond) == grp(m2[0], 1) + ".len() "@ + grp(m2[0], 2)
            + " ("@ + grp(m2[0], 3) + " as usize)"@)),
{
}

/// The pattern of an array slice declaration `T[] v = a[s..e];`.
pub open spec fn slice_decl_pat() -> Seq<char> {
    r"\b(i8|i16|i32|i64|u8|u16|u32|u64|f32|f64|bool)\[\]\s+([a-zA-Z_][a-zA-Z0-9_]*)\s*=\s*([a-zA-Z_][a-zA-Z0-9_]*)\[(\d+)\.\.(\d+)\];"@
}

/// Each array slice declaration `T[] v = a[s..e];` becomes exactly
/// `let v: &[T] = &a[s..e];`: the type, the names and the exclusive range
/// `s..e` kept as written, and the text between declarations unchanged.
pub proof fn law_slice_declaration(src: Seq<char>)
    ensures
        regex_scan(slice_decl_pat(), src) matches Some((g, m)) ==> rule_array_slices(src) == Ok::<
            Seq<char>,
            TranspileErrorView,
        >(
            splice(
                g,
                Seq::new(
                    m.len(),
                    |k: int|
                        "let "@ + grp(m[k], 2) + ": &["@ + grp(m[k], 1) + "] = &"@ + grp(m[k], 3) + "["@ + grp(m[k], 4)
                            + ".."@ + grp(m[k], 5) + "];"@,
                ),
            ),
        ),
{
    match regex_scan(slice_decl_pat(), src) {
        Some((g, m)) => {
            assert(m.map_values(|c: Seq<Option<Seq<char>>>| rep_array_slices(c)) =~= Seq::new(
                m.len(),
                |k: int|
                    "let "@ + grp(m[k], 2) + ": &["@ + grp(m[k], 1) + "] = &"@ + grp(m[k], 3) + "["@ + grp(m[k], 4)
                        + ".."@ + grp(m[k], 5) + "];"@,
            ));
        },
        None => {},
    }
}

/// The receiver a method of a class impl takes: `&mut self` when its body
/// writes a field (`this.f = ...`, `self.f += ...`), else `&self`;
/// constructors become `new` and take none.
pub proof fn law_field_writer_takes_mut_self(m: ClassMethod, parent: Option<Seq<char>>, fm: Seq<(Seq<char>, Seq<char>)>)
    requires
        m.ret_type@ != "Self"@,
    ensures
        (m.body matches Some(b) && writes_field(b@)) ==> has_prefix(
            inherent_method_text(m, parent, fm),
            "\n    "@ + vis_text(m.visibility) + "fn "@ + snake(m.name@) + "(&mut self"@,
        ),
        !(m.body matches Some(b) && writes_field(b@)) ==> has_prefix(
            inherent_method_text(m, parent, fm),
            "\n    "@ + vis_text(m.visibility) + "fn "@ + snake(m.name@) + "(&self"@,
        ),
{
    reveal_strlit("(&mut self");
    reveal_strlit("(&self");
    reveal_strlit("(");
    reveal_strlit("&mut self");
    reveal_strlit("&self");
    let t = inherent_method_text(m, parent, fm);
    let needs_mut = match m.body {
        Some(b) => writes_field(b@),
        None => false,
    };
    let sp = if needs_mut { "&mut self"@ } else { "&self"@ };
    let head = "\n    "@ + vis_text(m.visibility) + "fn "@ + snake(m.name@) + "("@ + sp;
    let rest = method_params_text(m.params@) + (if m.ret_type@ == "void"@ {
        ") {"@
    } else {
        ") -> "@ + m.ret_type@ + " {"@
    }) + (match m.body {
        Some(b) => self_refs(unbraced(b@), Some(fm)),
        None => "()"@,
    }) + "\n    }"@;
    assert(t =~= head + rest);
    assert((head + rest).subrange(0, head.len() as int) =~= head);
    assert("\n    "@ + vis_text(m.visibility) + "fn "@ + snake(m.name@) + "(&mut self"@ =~= "\n    "@ + vis_text(m.visibility) + "fn "@ + snake(m.name@) + "("@ + "&mut self"@);
    assert("\n    "@ + vis_text(m.visibility) + "fn "@ + snake(m.name@) + "(&self"@ =~= "\n    "@ + vis_text(m.visibility) + "fn "@ + snake(m.name@) + "("@ + "&self"@);
}

} // verus!
