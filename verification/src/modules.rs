//! Modules: where they are looked for, what they hold, and which have been loaded.
use crate::expression_view::{
    ExpressionView, ModuleDataView, SpannedExpressionView, StaticFunctionDefinitionView,
};
use crate::interpreter::{StageOutcome, StageOutcomeView, outcome_seq};
use crate::semantic_clone::clone_vec_text;
use crate::static_expression::{Expression, ModuleData, SpannedExpression, StaticFunctionDefinition};
use crate::text::opt_str;
use crate::text_map::{TextMap, lemma_insert_values};
use crate::values::text_seq;
use vstd::prelude::*;
use vstd::string::*;

verus! {

/// What one expression at the top of a module adds to it: a variable its value, a function
/// itself, anything else nothing. What comes later stands in place of what has its name.
pub open spec fn with_definition(module: ModuleDataView, e: SpannedExpressionView) -> ModuleDataView {
    match e.node {
        ExpressionView::Variable(variable) => ModuleDataView {
            variables: module.variables.insert(variable.name, variable.value),
            ..module
        },
        ExpressionView::Function { name, parameters, body } => ModuleDataView {
            functions: module.functions.insert(
                name,
                StaticFunctionDefinitionView { parameters, body: *body },
            ),
            ..module
        },
        _ => module,
    }
}

/// What a module holds.
pub open spec fn module_of(expressions: Seq<SpannedExpressionView>) -> ModuleDataView
    decreases expressions.len(),
{
    if expressions.len() == 0 {
        ModuleDataView { functions: Map::empty(), variables: Map::empty() }
    } else {
        with_definition(module_of(expressions.drop_last()), expressions.last())
    }
}

/// Collects what a module holds from the expressions at its top.
pub fn collect_module(expressions: &Vec<SpannedExpression>) -> (r: ModuleData)
    ensures
        r@ == module_of(expressions@.map_values(|x: SpannedExpression| x@)),
{
    let ghost all = expressions@.map_values(|x: SpannedExpression| x@);
    let mut functions: TextMap<StaticFunctionDefinition> = TextMap::new();
    let mut variables: TextMap<SpannedExpression> = TextMap::new();
    let ghost f = |x: StaticFunctionDefinition| x@;
    let ghost g = |x: SpannedExpression| x@;
    proof {
        assert(all.take(0) =~= Seq::empty());
        assert(functions@.map_values(f) =~= Map::empty());
        assert(variables@.map_values(g) =~= Map::empty());
    }
    let mut i: usize = 0;
    while i < expressions.len()
        invariant
            i <= expressions@.len(),
            all == expressions@.map_values(|x: SpannedExpression| x@),
            f == (|x: StaticFunctionDefinition| x@),
            g == (|x: SpannedExpression| x@),
            module_of(all.take(i as int)) == (ModuleDataView {
                functions: functions@.map_values(f),
                variables: variables@.map_values(g),
            }),
        decreases expressions@.len() - i,
    {
        let expression = &expressions[i];
        proof {
            assert(all.take(i + 1).drop_last() =~= all.take(i as int));
            assert(all.take(i + 1).last() == expression@);
            assert(expression@.node == expression.node@);
        }
        match &expression.node {
            Expression::Variable(variable) => {
                let value = variable.value.clone();
                proof {
                    assert(expression@.node == ExpressionView::Variable(Box::new(variable@)));
                    assert(variable@.value == value@);
                    lemma_insert_values(variables@, variable.name@, value, g);
                }
                variables.insert(variable.name.clone(), value);
            },
            Expression::Function { name, parameters, body } => {
                let definition = StaticFunctionDefinition {
                    parameters: clone_vec_text(parameters),
                    body: (**body).clone(),
                };
                proof {
                    assert(definition@.parameters =~= parameters@.map_values(|x: String| x@));
                    assert(definition@.body == body@);
                    lemma_insert_values(functions@, name@, definition, f);
                }
                functions.insert(name.clone(), definition);
            },
            _ => {},
        }
        i += 1;
    }
    assert(all.take(i as int) =~= all);
    ModuleData { functions, variables }
}

/// Whether the source of a module went through its three stages: the first two without errors.
pub open spec fn module_parsed(outcomes: Seq<StageOutcomeView>) -> bool {
    &&& outcomes.len() == 3
    &&& outcomes[0].passed && outcomes[0].errors.len() == 0
    &&& outcomes[1].passed && outcomes[1].errors.len() == 0
    &&& outcomes[2].passed
}

/// What a module holds whose source has gone through the stages of lexing, parsing and resolving
/// references, if it did so without errors.
pub fn parse_module(
    outcomes: &Vec<StageOutcome>,
    expressions: &Vec<SpannedExpression>,
) -> (r: Option<ModuleData>)
    ensures
        match r {
            Some(data) => module_parsed(outcome_seq(outcomes@)) && data@ == module_of(
                expressions@.map_values(|x: SpannedExpression| x@),
            ),
            None => !module_parsed(outcome_seq(outcomes@)),
        },
{
    let ghost all = outcome_seq(outcomes@);
    if outcomes.len() != 3 {
        return None;
    }
    proof {
        assert(all[0] == outcomes@[0]@);
        assert(all[1] == outcomes@[1]@);
        assert(all[2] == outcomes@[2]@);
    }
    if !outcomes[0].passed || outcomes[0].errors.len() > 0 {
        return None;
    }
    if !outcomes[1].passed || outcomes[1].errors.len() > 0 {
        return None;
    }
    if !outcomes[2].passed {
        return None;
    }
    Some(collect_module(expressions))
}

/// The directory that modules are looked for in, and the modules that have been loaded.
#[derive(Debug, PartialEq, Eq)]
pub struct ModuleLoader {
    base_dir: String,
    cache: TextMap<ModuleData>,
}

/// The mathematical value of a [`ModuleLoader`].
#[verifier::ext_equal]
pub struct ModuleLoaderView {
    pub base_dir: Seq<char>,
    pub cache: Map<Seq<char>, ModuleDataView>,
}

impl View for ModuleLoader {
    type V = ModuleLoaderView;

    closed spec fn view(&self) -> ModuleLoaderView {
        ModuleLoaderView {
            base_dir: self.base_dir@,
            cache: self.cache@.map_values(|x: ModuleData| x@),
        }
    }
}

/// A path below a directory; there is no slash where the directory has no name.
pub open spec fn path_below(base: Seq<char>, rest: Seq<char>) -> Seq<char> {
    if base.len() == 0 {
        rest
    } else {
        base + "/"@ + rest
    }
}

/// The files that a module may be in, below a directory.
pub open spec fn files_below(base: Seq<char>, module: Seq<char>) -> Seq<Seq<char>> {
    seq![
        path_below(base, module + ".bn"@),
        path_below(base, module + "/"@ + module + ".bn"@),
        path_below(base, "Generated/"@ + module + ".bn"@),
    ]
}

/// The files that a module may be in, in the order in which they are tried: first below the
/// current directory, if there is one, then below that of the loader.
pub open spec fn module_files(
    base_dir: Seq<char>,
    module: Seq<char>,
    current_dir: Option<Seq<char>>,
) -> Seq<Seq<char>> {
    let base = match current_dir {
        Some(dir) => dir,
        None => base_dir,
    };
    files_below(base, module) + files_below(base_dir, module)
}

/// The first of some files that holds a module.
pub open spec fn first_module(
    paths: Seq<Seq<char>>,
    parsed: Map<Seq<char>, ModuleDataView>,
) -> Option<ModuleDataView>
    decreases paths.len(),
{
    if paths.len() == 0 {
        None
    } else if parsed.contains_key(paths[0]) {
        Some(parsed[paths[0]])
    } else {
        first_module(paths.skip(1), parsed)
    }
}

/// What is loaded for a module: what was loaded under its name before, else the first of its
/// files that holds one.
pub open spec fn loaded_module(
    loader: ModuleLoaderView,
    module: Seq<char>,
    current_dir: Option<Seq<char>>,
    parsed: Map<Seq<char>, ModuleDataView>,
) -> Option<ModuleDataView> {
    if loader.cache.contains_key(module) {
        Some(loader.cache[module])
    } else {
        first_module(module_files(loader.base_dir, module, current_dir), parsed)
    }
}

/// The loader after a module was loaded: it keeps what was found.
pub open spec fn after_loading(
    loader: ModuleLoaderView,
    module: Seq<char>,
    current_dir: Option<Seq<char>>,
    parsed: Map<Seq<char>, ModuleDataView>,
) -> ModuleLoaderView {
    match loaded_module(loader, module, current_dir, parsed) {
        Some(data) => ModuleLoaderView { cache: loader.cache.insert(module, data), ..loader },
        None => loader,
    }
}

fn path_under(base: &str, rest: &str) -> (r: String)
    ensures
        r@ == path_below(base@, rest@),
{
    if base.unicode_len() == 0 {
        rest.to_owned()
    } else {
        let mut out = base.to_owned();
        out.append("/");
        out.append(rest);
        out
    }
}

fn push_files(paths: &mut Vec<String>, base: &str, module: &str)
    ensures
        text_seq(final(paths)@) == text_seq(old(paths)@) + files_below(base@, module@),
{
    let ghost before = text_seq(paths@);
    let mut own = module.to_owned();
    own.append(".bn");
    let mut nested = module.to_owned();
    nested.append("/");
    nested.append(module);
    nested.append(".bn");
    let mut generated = "Generated/".to_owned();
    generated.append(module);
    generated.append(".bn");
    paths.push(path_under(base, own.as_str()));
    paths.push(path_under(base, nested.as_str()));
    paths.push(path_under(base, generated.as_str()));
    assert(text_seq(paths@) =~= before + files_below(base@, module@));
}

/// The values of parsed modules.
pub open spec fn module_values(parsed: TextMap<ModuleData>) -> Map<Seq<char>, ModuleDataView> {
    parsed@.map_values(|x: ModuleData| x@)
}

impl Default for ModuleLoader {
    fn default() -> (r: Self)
        ensures
            r@ == (ModuleLoaderView { base_dir: Seq::empty(), cache: Map::empty() }),
    {
        let r = ModuleLoader::new("");
        proof {
            reveal_strlit("");
            assert(""@ =~= Seq::<char>::empty());
        }
        r
    }
}

impl ModuleLoader {
    /// A loader that has loaded nothing.
    pub fn new(base_dir: &str) -> (r: Self)
        ensures
            r@ == (ModuleLoaderView { base_dir: base_dir@, cache: Map::empty() }),
    {
        let r = ModuleLoader { base_dir: base_dir.to_owned(), cache: TextMap::new() };
        assert(r@.cache =~= Map::empty());
        r
    }

    /// Sets the directory that modules are looked for in.
    pub fn set_base_dir(&mut self, dir: &str)
        ensures
            final(self)@ == (ModuleLoaderView { base_dir: dir@, ..old(self)@ }),
    {
        self.base_dir = dir.to_owned();
    }

    /// The directory that modules are looked for in.
    pub fn base_dir(&self) -> (r: String)
        ensures
            r@ == self@.base_dir,
    {
        self.base_dir.clone()
    }

    /// A module that has been loaded.
    pub fn get_cached(&self, name: &str) -> (r: Option<ModuleData>)
        ensures
            match r {
                Some(data) => self@.cache.contains_key(name@) && self@.cache[name@] == data@,
                None => !self@.cache.contains_key(name@),
            },
    {
        match self.cache.get(name) {
            Some(data) => Some(data.clone()),
            None => None,
        }
    }

    /// Keeps a module.
    pub fn cache(&mut self, name: String, data: ModuleData)
        ensures
            final(self)@ == (ModuleLoaderView {
                cache: old(self)@.cache.insert(name@, data@),
                ..old(self)@
            }),
    {
        proof {
            lemma_insert_values(self.cache@, name@, data, |x: ModuleData| x@);
        }
        self.cache.insert(name, data);
    }

    /// The files that a module may be in, in the order in which they are tried.
    pub fn module_paths(&self, module_name: &str, current_dir: Option<&str>) -> (r: Vec<String>)
        ensures
            text_seq(r@) == module_files(self@.base_dir, module_name@, opt_str(current_dir)),
    {
        let mut paths: Vec<String> = Vec::new();
        assert(text_seq(paths@) =~= Seq::empty());
        match current_dir {
            Some(dir) => push_files(&mut paths, dir, module_name),
            None => push_files(&mut paths, self.base_dir.as_str(), module_name),
        }
        push_files(&mut paths, self.base_dir.as_str(), module_name);
        assert(text_seq(paths@) =~= module_files(
            self@.base_dir,
            module_name@,
            opt_str(current_dir),
        ));
        paths
    }

    /// Loads a module. `parsed` holds what the files of it that can be read and parsed hold, by
    /// their paths.
    pub fn load_module(
        &mut self,
        module_name: &str,
        current_dir: Option<&str>,
        parsed: &TextMap<ModuleData>,
    ) -> (r: Option<ModuleData>)
        ensures
            match r {
                Some(data) => loaded_module(
                    old(self)@,
                    module_name@,
                    opt_str(current_dir),
                    module_values(*parsed),
                ) == Some(data@),
                None => loaded_module(
                    old(self)@,
                    module_name@,
                    opt_str(current_dir),
                    module_values(*parsed),
                ) is None,
            },
            final(self)@ == after_loading(
                old(self)@,
                module_name@,
                opt_str(current_dir),
                module_values(*parsed),
            ),
    {
        let ghost start = self@;
        let ghost values = module_values(*parsed);
        match self.get_cached(module_name) {
            Some(data) => {
                assert(start.cache.insert(module_name@, data@) =~= start.cache);
                return Some(data);
            },
            None => {},
        }
        let paths = self.module_paths(module_name, current_dir);
        let ghost names = text_seq(paths@);
        assert(names.skip(0) =~= names);
        let mut i: usize = 0;
        while i < paths.len()
            invariant
                i <= paths@.len(),
                start == old(self)@,
                self@ == start,
                values == module_values(*parsed),
                !start.cache.contains_key(module_name@),
                names == text_seq(paths@),
                names == module_files(start.base_dir, module_name@, opt_str(current_dir)),
                first_module(names, values) == first_module(names.skip(i as int), values),
            decreases paths@.len() - i,
        {
            proof {
                assert(names.skip(i as int)[0] == paths@[i as int]@);
                assert(names.skip(i as int).skip(1) =~= names.skip(i + 1));
            }
            match parsed.get(paths[i].as_str()) {
                Some(data) => {
                    self.cache(module_name.to_owned(), data.clone());
                    return Some(data.clone());
                },
                None => {},
            }
            i += 1;
        }
        None
    }

    /// A function of a module.
    pub fn get_function(
        &mut self,
        module_name: &str,
        function_name: &str,
        current_dir: Option<&str>,
        parsed: &TextMap<ModuleData>,
    ) -> (r: Option<StaticFunctionDefinition>)
        ensures
            ({
                let found = loaded_module(
                    old(self)@,
                    module_name@,
                    opt_str(current_dir),
                    module_values(*parsed),
                );
                match r {
                    Some(definition) => found is Some && found->0.functions.contains_key(
                        function_name@,
                    ) && found->0.functions[function_name@] == definition@,
                    None => found is None || !found->0.functions.contains_key(function_name@),
                }
            }),
            final(self)@ == after_loading(
                old(self)@,
                module_name@,
                opt_str(current_dir),
                module_values(*parsed),
            ),
    {
        match self.load_module(module_name, current_dir, parsed) {
            Some(data) => match data.functions.get(function_name) {
                Some(definition) => Some(definition.clone()),
                None => None,
            },
            None => None,
        }
    }

    /// A variable of a module.
    pub fn get_variable(
        &mut self,
        module_name: &str,
        variable_name: &str,
        current_dir: Option<&str>,
        parsed: &TextMap<ModuleData>,
    ) -> (r: Option<SpannedExpression>)
        ensures
            ({
                let found = loaded_module(
                    old(self)@,
                    module_name@,
                    opt_str(current_dir),
                    module_values(*parsed),
                );
                match r {
                    Some(value) => found is Some && found->0.variables.contains_key(
                        variable_name@,
                    ) && found->0.variables[variable_name@] == value@,
                    None => found is None || !found->0.variables.contains_key(variable_name@),
                }
            }),
            final(self)@ == after_loading(
                old(self)@,
                module_name@,
                opt_str(current_dir),
                module_values(*parsed),
            ),
    {
        match self.load_module(module_name, current_dir, parsed) {
            Some(data) => match data.variables.get(variable_name) {
                Some(value) => Some(value.clone()),
                None => None,
            },
            None => None,
        }
    }
}

/// A module that has been loaded is not looked for again: whatever the files hold by then, the
/// same module is given.
pub proof fn lemma_loaded_once(
    loader: ModuleLoaderView,
    module: Seq<char>,
    current_dir: Option<Seq<char>>,
    parsed: Map<Seq<char>, ModuleDataView>,
    later_dir: Option<Seq<char>>,
    later: Map<Seq<char>, ModuleDataView>,
)
    requires
        loaded_module(loader, module, current_dir, parsed) is Some,
    ensures
        loaded_module(
            after_loading(loader, module, current_dir, parsed),
            module,
            later_dir,
            later,
        ) == loaded_module(loader, module, current_dir, parsed),
        after_loading(
            after_loading(loader, module, current_dir, parsed),
            module,
            later_dir,
            later,
        ) == after_loading(loader, module, current_dir, parsed),
{
    let after = after_loading(loader, module, current_dir, parsed);
    assert(after.cache.insert(module, after.cache[module]) =~= after.cache);
}

/// Loading a module leaves the others as they were.
pub proof fn lemma_loading_leaves_others(
    loader: ModuleLoaderView,
    module: Seq<char>,
    current_dir: Option<Seq<char>>,
    parsed: Map<Seq<char>, ModuleDataView>,
    other: Seq<char>,
)
    requires
        other != module,
    ensures
        ({
            let after = after_loading(loader, module, current_dir, parsed);
            &&& after.base_dir == loader.base_dir
            &&& after.cache.contains_key(other) == loader.cache.contains_key(other)
            &&& loader.cache.contains_key(other) ==> after.cache[other] == loader.cache[other]
        }),
{
}

} // verus!
