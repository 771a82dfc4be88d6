//! Hust-to-Rust transpiler core: namespace resolution, project
//! configuration, plugin pipeline and source-to-source translation.
pub mod text;
pub mod table;
pub mod order;
pub mod namespace;
pub mod project;
pub mod plugins;
pub mod pattern;
pub mod translator;
pub mod modules;
pub mod resolver;

pub use project::{Module, ProjectConfig, ProjectError};
pub use resolver::ModuleResolver;
pub use translator::{ModuleContext, TranspileError, TranspileOptions, Translator};
pub use plugins::{Plugin, PluginError, PluginManager};

use vstd::prelude::*;

verus! {

/// Results of translation.
pub type HustResult<T> = Result<T, TranspileError>;

/// The version written the Hust way: every `+` of the package version
/// becomes `.` (`0.1.0+20260521` is shown as `0.1.0.20260521`).
pub open spec fn hust_version(v: Seq<char>) -> Seq<char> {
    v.map_values(|c: char| if c == '+' { '.' } else { c })
}

/// The Hust form of package version `pkg_version`.
pub fn get_hust_version(pkg_version: &str) -> (r: String)
    ensures
        r@ == hust_version(pkg_version@),
{
    let v = text::chars_of(pkg_version);
    let mut out: Vec<char> = Vec::new();
    let mut i: usize = 0;
    while i < v.len()
        invariant
            0 <= i <= v.len(),
            v@ == pkg_version@,
            out@ == hust_version(v@).subrange(0, i as int),
        decreases v.len() - i,
    {
        out.push(if v[i] == '+' { '.' } else { v[i] });
        assert(out@ =~= hust_version(v@).subrange(0, i + 1));
        i = i + 1;
    }
    assert(hust_version(v@).subrange(0, v.len() as int) =~= hust_version(v@));
    text::string_of(&out)
}

} // verus!
