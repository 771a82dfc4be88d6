//! Transformation plugins: each rewrites source text; the manager runs them
//! in order of priority, smallest first, feeding each the previous output.
use vstd::prelude::*;
use crate::order::{key_order, sort_order_by_key, sorts_by_key};
use crate::text::{push_str, string_of};

verus! {

/// Errors of plugins.
#[derive(Debug)]
pub enum PluginError {
    LoadError(String),
    ExecutionError(String),
    NotFound(String),
}

/// The content of a [`PluginError`].
pub enum PluginErrorView {
    LoadError(Seq<char>),
    ExecutionError(Seq<char>),
    NotFound(Seq<char>),
}

impl View for PluginError {
    type V = PluginErrorView;

    open spec fn view(&self) -> PluginErrorView {
        match self {
            PluginError::LoadError(s) => PluginErrorView::LoadError(s@),
            PluginError::ExecutionError(s) => PluginErrorView::ExecutionError(s@),
            PluginError::NotFound(s) => PluginErrorView::NotFound(s@),
        }
    }
}

/// The text an error is shown with.
pub open spec fn plugin_error_text(e: PluginErrorView) -> Seq<char> {
    match e {
        PluginErrorView::LoadError(s) => "Plugin load failed: "@ + s,
        PluginErrorView::ExecutionError(s) => "Plugin execution failed: "@ + s,
        PluginErrorView::NotFound(s) => "Plugin not found: "@ + s,
    }
}

impl PluginError {
    /// The text the error is shown with.
    pub fn message(&self) -> (r: String)
        ensures
            r@ == plugin_error_text(self@),
    {
        let mut v: Vec<char> = Vec::new();
        match self {
            PluginError::LoadError(s) => {
                push_str(&mut v, "Plugin load failed: ");
                push_str(&mut v, s.as_str());
            },
            PluginError::ExecutionError(s) => {
                push_str(&mut v, "Plugin execution failed: ");
                push_str(&mut v, s.as_str());
            },
            PluginError::NotFound(s) => {
                push_str(&mut v, "Plugin not found: ");
                push_str(&mut v, s.as_str());
            },
        }
        string_of(&v)
    }
}

/// Text, by content.
pub type TextView = Seq<char>;

/// What a plugin makes of a text, by content.
pub type PluginOutcome = Result<Seq<char>, PluginErrorView>;

/// A plugin's outcome, by content.
pub open spec fn plugin_result_view(r: Result<String, PluginError>) -> Result<Seq<char>, PluginErrorView> {
    match r {
        Ok(s) => Ok(s@),
        Err(e) => Err(e@),
    }
}

/// A transformation plugin. Beside its methods, an implementation gives
/// `transform_result` and `priority_spec`: the names under which contracts
/// speak of what `transform` and `priority` return. They are specification
/// only and never run; code built without Verus may give them any body.
pub trait Plugin {
    /// What the plugin makes of text `s`: the outcome that
    /// [`Plugin::transform`] gives on it.
    spec fn transform_result(&self, s: TextView) -> PluginOutcome;

    /// The plugin's name.
    fn name(&self) -> &str;

    /// What the plugin does.
    fn description(&self) -> &str;

    /// The plugin's version.
    fn version(&self) -> &str;

    /// Rewrite `source`.
    fn transform(&self, source: &str) -> (r: Result<String, PluginError>)
        ensures
            plugin_result_view(r) == self.transform_result(source@),
    ;

    /// The plugin's priority: what [`Plugin::priority`] returns.
    spec fn priority_spec(&self) -> u32;

    /// Where the plugin runs: smaller values run first (plugins with
    /// nothing particular to say give 100).
    fn priority(&self) -> (p: u32)
        ensures
            p == self.priority_spec(),
    ;
}

/// Runs registered plugins.
pub struct PluginManager {
    plugins: Vec<Box<dyn Plugin>>,
}

impl PluginManager {
    /// How many plugins are registered.
    pub closed spec fn count(&self) -> nat {
        self.plugins@.len()
    }

    /// The plugin registered `i`-th.
    pub closed spec fn plugin_at(&self, i: int) -> Box<dyn Plugin> {
        self.plugins@[i]
    }

    /// The priority of the plugin registered `i`-th.
    pub closed spec fn plugin_priority(&self, i: int) -> u32 {
        self.plugins@[i].priority_spec()
    }

    /// The priorities of the registered plugins, in order of registration.
    pub open spec fn priorities(&self) -> Seq<u32> {
        Seq::new(self.count(), |j: int| self.plugin_priority(j))
    }

    /// What the plugin registered `i`-th makes of text `s`.
    pub closed spec fn plugin_result(&self, i: int, s: Seq<char>) -> Result<Seq<char>, PluginErrorView> {
        self.plugins@[i].transform_result(s)
    }

    /// Text `s` run through the plugins at positions `ord`, in turn: each
    /// gets the previous one's output, and the first failure is the result.
    pub open spec fn chain(&self, ord: Seq<usize>, s: Seq<char>) -> Result<Seq<char>, PluginErrorView>
        decreases ord.len(),
    {
        if ord.len() == 0 {
            Ok(s)
        } else {
            match self.plugin_result(ord[0] as int, s) {
                Ok(t) => self.chain(ord.drop_first(), t),
                Err(e) => Err(e),
            }
        }
    }

    /// A manager with no plugins.
    pub fn new() -> (m: Self)
        ensures
            m.count() == 0,
    {
        PluginManager { plugins: Vec::new() }
    }

    /// Add `plugin` after those registered: one more plugin, the earlier
    /// ones kept in their places.
    pub fn register(&mut self, plugin: Box<dyn Plugin>)
        ensures
            final(self).count() == old(self).count() + 1,
            forall|i: int| 0 <= i < old(self).count() ==> final(self).plugin_at(i) == old(self).plugin_at(i),
    {
        let ghost s0 = self.plugins@;
        self.plugins.push(plugin);
        proof {
            // The element type holds a trait object, for which the sequence
            // axioms are not applied on their own: apply them here.
            vstd::seq::axiom_seq_push_len(s0, plugin);
            assert forall|i: int| 0 <= i < s0.len() implies #[trigger] self.plugins@[i] == s0[i] by {
                vstd::seq::axiom_seq_push_index_different(s0, plugin, i);
            }
        }
    }

    /// The order in which plugins with priorities `priorities` run: by
    /// priority, and in order of registration among equals.
    pub fn execution_order(priorities: &Vec<u32>) -> (ord: Vec<usize>)
        ensures
            sorts_by_key(priorities@, ord@),
            ord@ == key_order(priorities@),
    {
        sort_order_by_key(priorities)
    }

    /// Run every plugin on `source`, in [`Self::execution_order`] of the
    /// priorities they report, each on the previous one's output; the first
    /// failure is returned and no plugin after it runs. Whatever priorities
    /// the plugins report, the result is that chain.
    pub fn execute_all(&self, source: &str) -> (r: Result<String, PluginError>)
        ensures
            plugin_result_view(r) == self.chain(key_order(self.priorities()), source@),
            self.count() == 0 ==> (r matches Ok(s) && s@ == source@),
    {
        let mut priorities: Vec<u32> = Vec::new();
        let mut i: usize = 0;
        while i < self.plugins.len()
            invariant
                0 <= i <= self.plugins.len(),
                priorities@ == self.priorities().subrange(0, i as int),
            decreases self.plugins.len() - i,
        {
            let pl = &self.plugins[i];
            let p = pl.priority();
            assert(p == self.plugins@[i as int].priority_spec());
            assert(p == self.plugin_priority(i as int));
            priorities.push(p);
            assert(priorities@ =~= self.priorities().subrange(0, i + 1));
            i = i + 1;
        }
        assert(priorities@ =~= self.priorities());
        let ord = Self::execution_order(&priorities);
        let r = self.run_in_order(&ord, source);
        r
    }

    /// Run the plugins at positions `ord` in turn on `source`, each on the
    /// previous one's output, stopping at the first failure.
    pub fn run_in_order(&self, ord: &Vec<usize>, source: &str) -> (r: Result<String, PluginError>)
        requires
            forall|p: int| 0 <= p < ord@.len() ==> ord@[p] < self.count(),
        ensures
            plugin_result_view(r) == self.chain(ord@, source@),
    {
        let mut result = String::from_str(source);
        let mut k: usize = 0;
        assert(ord@.subrange(0, ord@.len() as int) =~= ord@);
        while k < ord.len()
            invariant
                0 <= k <= ord.len(),
                forall|p: int| 0 <= p < ord@.len() ==> ord@[p] < self.plugins@.len(),
                self.chain(ord@, source@) == self.chain(ord@.subrange(k as int, ord@.len() as int), result@),
            decreases ord.len() - k,
        {
            let ghost rest = ord@.subrange(k as int, ord@.len() as int);
            assert(rest[0] == ord@[k as int]);
            assert(rest.drop_first() =~= ord@.subrange(k + 1, ord@.len() as int));
            let pl = &self.plugins[ord[k]];
            assert(*pl == self.plugins@[ord@[k as int] as int]);
            let next = pl.transform(result.as_str());
            assert(plugin_result_view(next) == pl.transform_result(result@));
            assert(plugin_result_view(next) == self.plugins@[ord@[k as int] as int].transform_result(result@));
            assert(plugin_result_view(next) == self.plugin_result(ord@[k as int] as int, result@));
            match next {
                Ok(s) => {
                    result = s;
                },
                Err(e) => {
                    return Err(e);
                },
            }
            k = k + 1;
        }
        assert(ord@.subrange(k as int, ord@.len() as int) =~= Seq::<usize>::empty());
        Ok(result)
    }
}

impl Default for PluginManager {
    fn default() -> (m: Self)
        ensures
            m.count() == 0,
    {
        Self::new()
    }
}

/// A plugin that simplifies syntax sugar; it leaves text unchanged so far.
pub struct SyntaxSimplifyPlugin;

impl Plugin for SyntaxSimplifyPlugin {
    open spec fn transform_result(&self, s: Seq<char>) -> Result<Seq<char>, PluginErrorView> {
        Ok(s)
    }

    open spec fn priority_spec(&self) -> u32 {
        100
    }

    fn priority(&self) -> (p: u32) {
        100
    }

    fn name(&self) -> (r: &str)
        ensures
            r@ == "syntax-simplify"@,
    {
        "syntax-simplify"
    }

    fn description(&self) -> (r: &str)
        ensures
            r@ == "Simplify syntax sugar for cleaner code"@,
    {
        "Simplify syntax sugar for cleaner code"
    }

    fn version(&self) -> (r: &str)
        ensures
            r@ == "0.1.0"@,
    {
        "0.1.0"
    }

    /// The text unchanged.
    fn transform(&self, source: &str) -> (r: Result<String, PluginError>)
        ensures
            r matches Ok(s) && s@ == source@,
    {
        Ok(String::from_str(source))
    }
}

} // verus!
