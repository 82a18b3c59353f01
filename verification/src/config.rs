//! The build configuration used by test fixtures: plain values with the
//! same defaults the fixture loader applies.

use vstd::prelude::*;

use vstd::string::StringExecFns;

verus! {

/// One entry declaration: what to import and the runtime chunk to use.
pub struct EntryItem {
    pub import: Vec<String>,
    pub runtime: Option<String>,
}

/// Optimization switches.
pub struct Optimization {
    pub remove_available_modules: bool,
    pub module_ids: String,
    pub side_effects: String,
}

/// Minifier settings.
pub struct Minification {
    pub passes: usize,
    pub drop_console: bool,
    pub pure_funcs: Vec<String>,
}

/// Transpilation target environment.
pub struct PresetEnv {
    pub targets: Vec<String>,
    pub mode: Option<String>,
    pub core_js: Option<String>,
}

/// How CSS modules are named and exported.
pub struct ModulesConfig {
    pub locals_convention: String,
    pub local_ident_name: String,
    pub exports_only: bool,
}

/// CSS handling.
pub struct Css {
    pub modules: ModulesConfig,
}

/// Built-in feature switches.
pub struct Builtins {
    pub define: Vec<(String, String)>,
    pub minify_options: Option<Minification>,
    pub tree_shaking: bool,
    pub preset_env: Option<PresetEnv>,
    pub css: Css,
}

/// Where and under which names output is written.
pub struct Output {
    pub public_path: String,
    pub filename: String,
    pub chunk_filename: String,
    pub css_filename: String,
    pub css_chunk_filename: String,
}

/// How a module rule decides whether it applies.
pub enum ModuleRuleTest {
    Regexp { matcher: String },
}

/// One loader a rule runs.
pub struct ModuleRuleUse {
    pub builtin_loader: String,
    pub options: Option<String>,
}

/// One module rule.
pub struct Rule {
    pub test: Option<ModuleRuleTest>,
    pub use_loaders: Vec<ModuleRuleUse>,
    pub side_effect: Option<bool>,
    pub rule_type: Option<String>,
}

/// Module handling.
pub struct Module {
    pub rules: Vec<Rule>,
}

/// A whole test build configuration.
pub struct TestConfig {
    pub entry: Vec<(String, EntryItem)>,
    pub builtins: Builtins,
    pub target: Vec<String>,
    pub output: Output,
    pub module: Module,
    pub optimization: Optimization,
    pub devtool: String,
}

/// The single "main" entry importing "./index", used when a fixture
/// declares no entry.
pub fn default_entry() -> (r: Vec<(String, EntryItem)>)
    ensures
        r@.len() == 1,
        r@[0].0@ == "main"@,
        r@[0].1.import@.len() == 1,
        r@[0].1.import@[0]@ == "./index"@,
        r@[0].1.runtime is None,
{
    let mut import: Vec<String> = Vec::new();
    import.push("./index".to_owned());
    let item = EntryItem { import, runtime: None };
    let mut r: Vec<(String, EntryItem)> = Vec::new();
    r.push(("main".to_owned(), item));
    r
}

pub fn default_public_path() -> (r: String)
    ensures
        r@ == "auto"@,
{
    "auto".to_owned()
}

pub fn default_target() -> (r: Vec<String>)
    ensures
        r@.len() == 2,
        r@[0]@ == "web"@,
        r@[1]@ == "es2022"@,
{
    let mut r: Vec<String> = Vec::new();
    r.push("web".to_owned());
    r.push("es2022".to_owned());
    r
}

pub fn enable_runtime_by_default() -> (r: Option<String>)
    ensures
        r matches Some(s) && s@ == "runtime"@,
{
    Some("runtime".to_owned())
}

pub fn default_chunk_filename() -> (r: String)
    ensures
        r@ == "[name][ext]"@,
{
    "[name][ext]".to_owned()
}

pub fn default_optimization_module_ids() -> (r: String)
    ensures
        r@ == "named"@,
{
    "named".to_owned()
}

pub fn default_optimization_side_effects() -> (r: String)
    ensures
        r@ == "false"@,
{
    "false".to_owned()
}

pub fn true_by_default() -> (r: bool)
    ensures
        r,
{
    true
}

impl Default for ModulesConfig {
    /// CSS module names are kept as written, under the default template.
    fn default() -> (r: ModulesConfig)
        ensures
            r.locals_convention@ == "asIs"@,
            r.local_ident_name@ == "[path][name][ext]__[local]"@,
            !r.exports_only,
    {
        ModulesConfig {
            locals_convention: "asIs".to_owned(),
            local_ident_name: "[path][name][ext]__[local]".to_owned(),
            exports_only: false,
        }
    }
}

impl Default for Css {
    fn default() -> (r: Css)
        ensures
            r.modules.locals_convention@ == "asIs"@,
            r.modules.local_ident_name@ == "[path][name][ext]__[local]"@,
            !r.modules.exports_only,
    {
        Css { modules: ModulesConfig::default() }
    }
}

impl Default for Builtins {
    fn default() -> (r: Builtins)
        ensures
            r.define@.len() == 0,
            r.minify_options is None,
            !r.tree_shaking,
            r.preset_env is None,
            r.css.modules.locals_convention@ == "asIs"@,
    {
        Builtins {
            define: Vec::new(),
            minify_options: None,
            tree_shaking: false,
            preset_env: None,
            css: Css::default(),
        }
    }
}

impl Default for Output {
    fn default() -> (r: Output)
        ensures
            r.public_path@ == "auto"@,
            r.filename@ == "[name][ext]"@,
            r.chunk_filename@ == "[name][ext]"@,
            r.css_filename@ == "[name][ext]"@,
            r.css_chunk_filename@ == "[name][ext]"@,
    {
        Output {
            public_path: default_public_path(),
            filename: default_chunk_filename(),
            chunk_filename: default_chunk_filename(),
            css_filename: default_chunk_filename(),
            css_chunk_filename: default_chunk_filename(),
        }
    }
}

impl Default for Module {
    fn default() -> (r: Module)
        ensures
            r.rules@.len() == 0,
    {
        Module { rules: Vec::new() }
    }
}

impl Default for Optimization {
    fn default() -> (r: Optimization)
        ensures
            r.remove_available_modules,
            r.module_ids@ == "named"@,
            r.side_effects@ == "false"@,
    {
        Optimization {
            remove_available_modules: true_by_default(),
            module_ids: default_optimization_module_ids(),
            side_effects: default_optimization_side_effects(),
        }
    }
}

impl Default for EntryItem {
    fn default() -> (r: EntryItem)
        ensures
            r.import@.len() == 0,
            r.runtime matches Some(s) && s@ == "runtime"@,
    {
        EntryItem { import: Vec::new(), runtime: enable_runtime_by_default() }
    }
}

impl Default for TestConfig {
    fn default() -> (r: TestConfig)
        ensures
            r.entry@.len() == 1,
            r.entry@[0].0@ == "main"@,
            r.target@.len() == 2,
            r.output.public_path@ == "auto"@,
            r.module.rules@.len() == 0,
            r.optimization.remove_available_modules,
            r.devtool@ == Seq::<char>::empty(),
    {
        TestConfig {
            entry: default_entry(),
            builtins: Builtins::default(),
            target: default_target(),
            output: Output::default(),
            module: Module::default(),
            optimization: Optimization::default(),
            devtool: String::new(),
        }
    }
}

/// Forces every entry to split its runtime into a chunk named "runtime",
/// which keeps snapshots of the emitted output stable.
pub fn add_entry_runtime(options: TestConfig) -> (r: TestConfig)
    ensures
        r.builtins == options.builtins,
        r.target == options.target,
        r.output == options.output,
        r.module == options.module,
        r.optimization == options.optimization,
        r.devtool == options.devtool,
        r.entry@.len() == options.entry@.len(),
        forall|k: int|
            0 <= k < r.entry@.len() ==> (#[trigger] r.entry@[k]).0 == options.entry@[k].0
                && r.entry@[k].1.import == options.entry@[k].1.import && (r.entry@[k].1.runtime
                matches Some(s) && s@ == "runtime"@),
{
    let TestConfig { entry, builtins, target, output, module, optimization, devtool } = options;
    let ghost entry0 = entry@;
    let mut rest = entry;
    let mut done: Vec<(String, EntryItem)> = Vec::new();
    while rest.len() > 0
        invariant
            done@.len() + rest@.len() == entry0.len(),
            forall|k: int| 0 <= k < rest@.len() ==> rest@[k] == entry0[done@.len() + k],
            forall|k: int|
                0 <= k < done@.len() ==> (#[trigger] done@[k]).0 == entry0[k].0
                    && done@[k].1.import == entry0[k].1.import && (done@[k].1.runtime matches Some(
                    s,
                ) && s@ == "runtime"@),
        decreases rest@.len(),
    {
        let (name, item) = rest.remove(0);
        let new_item = EntryItem { import: item.import, runtime: Some("runtime".to_owned()) };
        done.push((name, new_item));
    }
    TestConfig { entry: done, builtins, target, output, module, optimization, devtool }
}

} // verus!
