use vstd::prelude::*;
use vstd::string::*;

use crate::factory::{extracted, is_plan, Factory};
use crate::lp::{coefficients_of, rows_of, Comparison, LinearConstraint, LinearProgram, LinearSolver, LpOutcome, Row, ONE};
use crate::world::{first_index_of, RecipeId, ResourceId, VariableId, World};

verus! {

/// A bound on one variable's solved value; thresholds are in millionths.
#[derive(Clone, Copy, Debug, PartialEq, Eq, Structural)]
pub enum Constraint {
    Less(i64),
    Equal(i64),
    Greater(i64),
    Unconstrained,
}

#[derive(Clone, Copy, Debug, PartialEq, Eq, Structural)]
pub struct Rule {
    pub variable: VariableId,
    pub constraint: Constraint,
}

pub struct RuleList {
    pub rules: Vec<Rule>,
}

/// The input to one solve: rules, and objective coefficients in millionths.
pub struct Problem {
    pub rules: Vec<Rule>,
    pub optimizations: Vec<(VariableId, i64)>,
}

/// A rule as a rule-list file gives it: the variable by kind and name.
pub enum RuleJson {
    Resource { resource: String, constraint: Constraint },
    Recipe { recipe: String, constraint: Constraint },
}

pub struct RuleListJson {
    pub rules: Vec<RuleJson>,
}

#[derive(Debug)]
pub enum LoadRuleListError {
    BadRecipeName { recipe_name: String },
    BadResourceName { resource_name: String },
}

/// The rule that a file's rule stands for: its name resolved to the first
/// resource or recipe of that name, if there is one.
pub open spec fn resolved_rule(world: &World, json: RuleJson) -> Option<Rule> {
    match json {
        RuleJson::Resource { resource, constraint } => match first_index_of(world.resource_names(), resource@) {
            Some(i) => Some(Rule { variable: VariableId::Resource(ResourceId(i as usize)), constraint }),
            None => None,
        },
        RuleJson::Recipe { recipe, constraint } => match first_index_of(world.recipe_names(), recipe@) {
            Some(i) => Some(Rule { variable: VariableId::Recipe(RecipeId(i as usize)), constraint }),
            None => None,
        },
    }
}

/// Whether a file's rule is a resource rule with the given name, and no
/// resource has that name.
pub open spec fn unknown_resource(world: &World, json: RuleJson, name: Seq<char>) -> bool {
    match json {
        RuleJson::Resource { resource, .. } => resource@ == name && first_index_of(world.resource_names(), name) is None,
        RuleJson::Recipe { .. } => false,
    }
}

/// Whether a file's rule is a recipe rule with the given name, and no recipe
/// has that name.
pub open spec fn unknown_recipe(world: &World, json: RuleJson, name: Seq<char>) -> bool {
    match json {
        RuleJson::Recipe { recipe, .. } => recipe@ == name && first_index_of(world.recipe_names(), name) is None,
        RuleJson::Resource { .. } => false,
    }
}

/// Whether the first `k` rules of a file all resolve.
pub open spec fn rules_resolve(world: &World, rules: Seq<RuleJson>, k: int) -> bool {
    forall|m: int| 0 <= m < k ==> (#[trigger] resolved_rule(world, rules[m])) is Some
}

/// Whether a file's rule names the variable of `rule` and carries its constraint.
pub open spec fn names_rule(world: &World, rule: Rule, json: RuleJson) -> bool {
    match (rule.variable, json) {
        (VariableId::Resource(id), RuleJson::Resource { resource, constraint }) => resource@
            == world.resources@[id.0 as int].name@ && constraint == rule.constraint,
        (VariableId::Recipe(id), RuleJson::Recipe { recipe, constraint }) => recipe@ == world.recipes@[id.0 as int].name@
            && constraint == rule.constraint,
        _ => false,
    }
}

/// Resolves the names of a rule list's rules, in order. Fails on the first name
/// that no resource or recipe of its kind has.
pub fn load_rule_list(world: &World, rule_list_json: &RuleListJson) -> (r: Result<RuleList, LoadRuleListError>)
    ensures
        r is Ok <==> rules_resolve(world, rule_list_json.rules@, rule_list_json.rules@.len() as int),
        r matches Ok(list) ==> {
            &&& list.rules@.len() == rule_list_json.rules@.len()
            &&& forall|k: int|
                0 <= k < list.rules@.len() ==> Some(#[trigger] list.rules@[k]) == resolved_rule(
                    world,
                    rule_list_json.rules@[k],
                )
        },
        r matches Err(LoadRuleListError::BadResourceName { resource_name }) ==> exists|k: int|
            0 <= k < rule_list_json.rules@.len() && rules_resolve(world, rule_list_json.rules@, k) && unknown_resource(
                world,
                #[trigger] rule_list_json.rules@[k],
                resource_name@,
            ),
        r matches Err(LoadRuleListError::BadRecipeName { recipe_name }) ==> exists|k: int|
            0 <= k < rule_list_json.rules@.len() && rules_resolve(world, rule_list_json.rules@, k) && unknown_recipe(
                world,
                #[trigger] rule_list_json.rules@[k],
                recipe_name@,
            ),
{
    let mut rules: Vec<Rule> = Vec::new();
    let mut k: usize = 0;
    while k < rule_list_json.rules.len()
        invariant
            k <= rule_list_json.rules@.len(),
            rules@.len() == k,
            forall|m: int| 0 <= m < k ==> Some(#[trigger] rules@[m]) == resolved_rule(world, rule_list_json.rules@[m]),
        decreases rule_list_json.rules@.len() - k,
    {
        let ghost json = rule_list_json.rules@[k as int];
        assert forall|m: int| 0 <= m < k implies (#[trigger] resolved_rule(world, rule_list_json.rules@[m])) is Some by {
            assert(Some(rules@[m]) == resolved_rule(world, rule_list_json.rules@[m]));
        }
        assert(rules_resolve(world, rule_list_json.rules@, k as int));
        match &rule_list_json.rules[k] {
            RuleJson::Resource { resource, constraint } => {
                match world.resource_id_of_name(resource.as_str()) {
                    Some(id) => {
                        rules.push(Rule { variable: id.variable_id(), constraint: *constraint });
                    },
                    None => {
                        assert(resolved_rule(world, json) is None);
                        assert(unknown_resource(world, rule_list_json.rules@[k as int], resource@));
                        return Err(LoadRuleListError::BadResourceName { resource_name: resource.clone() });
                    },
                }
            },
            RuleJson::Recipe { recipe, constraint } => {
                match world.recipe_id_of_name(recipe.as_str()) {
                    Some(id) => {
                        rules.push(Rule { variable: id.variable_id(), constraint: *constraint });
                    },
                    None => {
                        assert(resolved_rule(world, json) is None);
                        assert(unknown_recipe(world, rule_list_json.rules@[k as int], recipe@));
                        return Err(LoadRuleListError::BadRecipeName { recipe_name: recipe.clone() });
                    },
                }
            },
        }
        k = k + 1;
    }
    assert forall|k: int| 0 <= k < rule_list_json.rules@.len() implies (#[trigger] resolved_rule(
        world,
        rule_list_json.rules@[k],
    )) is Some by {
        assert(Some(rules@[k]) == resolved_rule(world, rule_list_json.rules@[k]));
    }
    Ok(RuleList { rules })
}

/// The file form of a rule list: each rule with its variable's kind and name.
pub fn save_rule_list(world: &World, rule_list: &RuleList) -> (r: RuleListJson)
    requires
        forall|k: int| 0 <= k < rule_list.rules@.len() ==> world.valid_variable(#[trigger] rule_list.rules@[k].variable),
    ensures
        r.rules@.len() == rule_list.rules@.len(),
        forall|k: int| 0 <= k < r.rules@.len() ==> names_rule(world, rule_list.rules@[k], #[trigger] r.rules@[k]),
{
    let mut rules: Vec<RuleJson> = Vec::new();
    let mut k: usize = 0;
    while k < rule_list.rules.len()
        invariant
            forall|k: int| 0 <= k < rule_list.rules@.len() ==> world.valid_variable(#[trigger] rule_list.rules@[k].variable),
            k <= rule_list.rules@.len(),
            rules@.len() == k,
            forall|m: int| 0 <= m < k ==> names_rule(world, rule_list.rules@[m], #[trigger] rules@[m]),
        decreases rule_list.rules@.len() - k,
    {
        let rule = rule_list.rules[k];
        let json = match rule.variable {
            VariableId::Resource(resource) => RuleJson::Resource {
                resource: String::from_str(world.name_of_resource(resource)),
                constraint: rule.constraint,
            },
            VariableId::Recipe(recipe) => RuleJson::Recipe {
                recipe: String::from_str(world.name_of_recipe(recipe)),
                constraint: rule.constraint,
            },
        };
        rules.push(json);
        k = k + 1;
    }
    RuleListJson { rules }
}

/// Why a solve gave no factory.
#[derive(Clone, Copy, Debug, PartialEq, Eq, Structural)]
pub enum SolveError {
    /// No assignment meets every constraint.
    Infeasible,
    /// The objective grows without limit.
    Unbounded,
    /// The solver gave a number of values other than the number of variables.
    IncompleteSolution,
}

/// The factory that a solver's outcome stands for: the solver's two failures as
/// errors; for an optimal assignment of every variable, the factory taken from it.
pub fn factory_of_outcome(world: &World, outcome: LpOutcome) -> (r: Result<Factory, SolveError>)
    ensures
        outcome is Infeasible ==> r == Err::<Factory, SolveError>(SolveError::Infeasible),
        outcome is Unbounded ==> r == Err::<Factory, SolveError>(SolveError::Unbounded),
        outcome is Optimal ==> if outcome->Optimal_0@.len() == world.n_variables() {
            &&& r is Ok
            &&& r->Ok_0.recipes@ == extracted(outcome->Optimal_0@, world.n_resources(), world.n_recipes())
        } else {
            r == Err::<Factory, SolveError>(SolveError::IncompleteSolution)
        },
        r is Ok ==> is_plan(r->Ok_0.recipes@, world.n_recipes()),
{
    match outcome {
        LpOutcome::Infeasible => Err(SolveError::Infeasible),
        LpOutcome::Unbounded => Err(SolveError::Unbounded),
        LpOutcome::Optimal(values) => {
            if values.len() >= world.resources.len() && values.len() - world.resources.len() == world.recipes.len() {
                Ok(Factory::from_solution(world, &values))
            } else {
                Err(SolveError::IncompleteSolution)
            }
        },
    }
}

/// The program's variable for `v`: resources first, then recipes.
pub open spec fn var_index(world: &World, v: VariableId) -> int {
    match v {
        VariableId::Resource(r) => r.0 as int,
        VariableId::Recipe(r) => world.n_resources() + r.0,
    }
}

/// The objective coefficient of variable `k`: the sum of every coefficient
/// the list gives it (0 when it gives none).
pub open spec fn objective_coefficient(world: &World, opts: Seq<(VariableId, i64)>, k: int) -> int
    decreases opts.len(),
{
    if opts.len() == 0 {
        0
    } else if var_index(world, opts.last().0) == k {
        objective_coefficient(world, opts.drop_last(), k) + opts.last().1
    } else {
        objective_coefficient(world, opts.drop_last(), k)
    }
}

pub open spec fn objective_of(world: &World, opts: Seq<(VariableId, i64)>) -> Seq<int> {
    Seq::new(world.n_variables(), |k: int| objective_coefficient(world, opts, k))
}

/// The terms `(var, rate)` of the rates that touch resource `r`, in order.
pub open spec fn resource_terms(rates: Seq<(ResourceId, i64)>, r: nat, var: usize) -> Seq<(usize, i64)>
    decreases rates.len(),
{
    if rates.len() == 0 {
        Seq::empty()
    } else if rates.last().0.0 == r {
        resource_terms(rates.drop_last(), r, var).push((var, rates.last().1))
    } else {
        resource_terms(rates.drop_last(), r, var)
    }
}

/// The terms of the first `n` recipes that touch resource `r`.
pub open spec fn conservation_terms(world: &World, r: nat, n: nat) -> Seq<(usize, i64)>
    decreases n,
{
    if n == 0 {
        Seq::empty()
    } else {
        conservation_terms(world, r, (n - 1) as nat) + resource_terms(
            world.rates_of(n - 1),
            r,
            (world.n_resources() + n - 1) as usize,
        )
    }
}

/// Resource `r`'s net flow equals the sum of rate times throughput.
pub open spec fn conservation_row(world: &World, r: nat) -> Row {
    (conservation_terms(world, r, world.n_recipes()).push((r as usize, (-ONE) as i64)), Comparison::Equal, 0)
}

pub open spec fn nonnegativity_row(world: &World, i: nat) -> Row {
    (seq![((world.n_resources() + i) as usize, ONE)], Comparison::Greater, 0)
}

/// The row a rule adds: none for `Unconstrained`.
pub open spec fn rule_row(world: &World, rule: Rule) -> Seq<Row> {
    let terms = seq![(var_index(world, rule.variable) as usize, ONE)];
    match rule.constraint {
        Constraint::Less(t) => seq![(terms, Comparison::Less, t)],
        Constraint::Equal(t) => seq![(terms, Comparison::Equal, t)],
        Constraint::Greater(t) => seq![(terms, Comparison::Greater, t)],
        Constraint::Unconstrained => Seq::empty(),
    }
}

pub open spec fn rule_rows(world: &World, rules: Seq<Rule>) -> Seq<Row>
    decreases rules.len(),
{
    if rules.len() == 0 {
        Seq::empty()
    } else {
        rule_rows(world, rules.drop_last()) + rule_row(world, rules.last())
    }
}

/// Whether some rule, of any kind, names resource `r`.
pub open spec fn is_ruled(rules: Seq<Rule>, r: nat) -> bool {
    exists|k: int| 0 <= k < rules.len() && #[trigger] rules[k].variable == VariableId::Resource(ResourceId(r as usize))
}

pub open spec fn default_row(r: nat) -> Row {
    (seq![(r as usize, ONE)], Comparison::Equal, 0)
}

/// A zero net flow for each of the first `n` resources that no rule names.
pub open spec fn default_rows(rules: Seq<Rule>, n: nat) -> Seq<Row>
    decreases n,
{
    if n == 0 {
        Seq::empty()
    } else if is_ruled(rules, (n - 1) as nat) {
        default_rows(rules, (n - 1) as nat)
    } else {
        default_rows(rules, (n - 1) as nat).push(default_row((n - 1) as nat))
    }
}

/// The constraints in order: conservation, non-negativity, rules, default balance.
pub open spec fn formulation_rows(world: &World, rules: Seq<Rule>) -> Seq<Row> {
    Seq::new(world.n_resources(), |r: int| conservation_row(world, r as nat))
        + Seq::new(world.n_recipes(), |i: int| nonnegativity_row(world, i as nat))
        + rule_rows(world, rules)
        + default_rows(rules, world.n_resources())
}

pub open spec fn formulation(world: &World, rules: Seq<Rule>, opts: Seq<(VariableId, i64)>) -> (Seq<int>, Seq<Row>) {
    (objective_of(world, opts), formulation_rows(world, rules))
}

fn var_of(world: &World, v: VariableId) -> (r: usize)
    requires
        world.wf(),
        world.valid_variable(v),
    ensures
        r == var_index(world, v),
        r < world.n_variables(),
{
    match v {
        VariableId::Resource(r) => r.0,
        VariableId::Recipe(r) => world.resources.len() + r.0,
    }
}

/// The conservation constraint of resource `r`.
fn conservation_constraint(world: &World, r: usize) -> (c: LinearConstraint)
    requires
        world.wf(),
        r < world.n_resources(),
    ensures
        c@ == conservation_row(world, r as nat),
{
    let n_resources = world.resources.len();
    let mut terms: Vec<(usize, i64)> = Vec::new();
    let mut i: usize = 0;
    while i < world.recipes.len()
        invariant
            world.wf(),
            n_resources == world.n_resources(),
            i <= world.n_recipes(),
            terms@ == conservation_terms(world, r as nat, i as nat),
        decreases world.n_recipes() - i,
    {
        let rates = &world.recipes[i].rates;
        let mut j: usize = 0;
        while j < rates.len()
            invariant
                world.wf(),
                n_resources == world.n_resources(),
                i < world.n_recipes(),
                rates@ == world.rates_of(i as int),
                j <= rates@.len(),
                terms@ == conservation_terms(world, r as nat, i as nat) + resource_terms(
                    rates@.take(j as int),
                    r as nat,
                    (n_resources + i) as usize,
                ),
            decreases rates@.len() - j,
        {
            let (resource, rate) = rates[j];
            assert(rates@.take(j + 1).drop_last() =~= rates@.take(j as int));
            if resource.0 == r {
                terms.push((n_resources + i, rate));
            }
            j = j + 1;
        }
        assert(rates@.take(j as int) =~= rates@);
        i = i + 1;
    }
    terms.push((r, -ONE));
    LinearConstraint { terms, comparison: Comparison::Equal, rhs: 0 }
}

/// `sum(ONE * variable) comparison rhs` over a single variable.
fn single_constraint(variable: usize, comparison: Comparison, rhs: i64) -> (c: LinearConstraint)
    ensures
        c@ == (seq![(variable, ONE)], comparison, rhs),
{
    let mut terms: Vec<(usize, i64)> = Vec::new();
    terms.push((variable, ONE));
    assert(terms@ =~= seq![(variable, ONE)]);
    LinearConstraint { terms, comparison, rhs }
}

/// For each resource, whether no rule names it.
fn unruled_resources(world: &World, rules: &Vec<Rule>) -> (r: Vec<bool>)
    requires
        forall|k: int| 0 <= k < rules@.len() ==> world.valid_variable(#[trigger] rules@[k].variable),
    ensures
        r@.len() == world.n_resources(),
        forall|i: int| 0 <= i < r@.len() ==> r@[i] == !is_ruled(rules@, i as nat),
{
    let mut flags: Vec<bool> = Vec::new();
    while flags.len() < world.resources.len()
        invariant
            flags@.len() <= world.n_resources(),
            forall|i: int| 0 <= i < flags@.len() ==> flags@[i],
        decreases world.n_resources() - flags@.len(),
    {
        flags.push(true);
    }
    let mut k: usize = 0;
    while k < rules.len()
        invariant
            forall|k: int| 0 <= k < rules@.len() ==> world.valid_variable(#[trigger] rules@[k].variable),
            k <= rules@.len(),
            flags@.len() == world.n_resources(),
            forall|i: int| 0 <= i < flags@.len() ==> flags@[i] == !is_ruled(rules@.take(k as int), i as nat),
        decreases rules@.len() - k,
    {
        let ghost prefix = rules@.take(k as int);
        let ghost next = rules@.take(k + 1);
        assert forall|i: int| 0 <= i < flags@.len() implies #[trigger] is_ruled(next, i as nat) == (is_ruled(prefix, i as nat)
            || rules@[k as int].variable == VariableId::Resource(ResourceId(i as usize))) by {
            if is_ruled(prefix, i as nat) {
                let w = choose|w: int| 0 <= w < prefix.len() && #[trigger] prefix[w].variable == VariableId::Resource(ResourceId(i as usize));
                assert(next[w] == prefix[w]);
            }
            if is_ruled(next, i as nat) {
                let w = choose|w: int| 0 <= w < next.len() && #[trigger] next[w].variable == VariableId::Resource(ResourceId(i as usize));
                if w < k {
                    assert(next[w] == prefix[w]);
                }
            }
            if rules@[k as int].variable == VariableId::Resource(ResourceId(i as usize)) {
                assert(next[k as int] == rules@[k as int]);
            }
        }
        let ghost before = flags@;
        if let VariableId::Resource(resource) = rules[k].variable {
            flags.set(resource.0, false);
        }
        assert forall|i: int| 0 <= i < flags@.len() implies flags@[i] == !is_ruled(next, i as nat) by {
            assert(before[i] == !is_ruled(prefix, i as nat));
            assert(i < flags.len());
            assert((i as usize) as int == i);
            assert(is_ruled(next, i as nat) == (is_ruled(prefix, i as nat)
                || rules@[k as int].variable == VariableId::Resource(ResourceId(i as usize))));
            match rules@[k as int].variable {
                VariableId::Resource(resource) => {
                    if resource.0 != i {
                        assert(ResourceId(i as usize) != resource);
                    }
                },
                VariableId::Recipe(_) => {},
            }
        }
        k = k + 1;
    }
    assert(rules@.take(k as int) =~= rules@);
    flags
}

impl Problem {
    /// Every rule and every objective entry names a variable of the world.
    pub open spec fn refers_to(&self, world: &World) -> bool {
        &&& forall|k: int| 0 <= k < self.rules@.len() ==> world.valid_variable(#[trigger] self.rules@[k].variable)
        &&& forall|k: int|
            0 <= k < self.optimizations@.len() ==> world.valid_variable(#[trigger] self.optimizations@[k].0)
    }

    fn objective(&self, world: &World) -> (r: Vec<i128>)
        requires
            world.wf(),
            self.refers_to(world),
        ensures
            coefficients_of(r@) == objective_of(world, self.optimizations@),
    {
        let n = world.resources.len() + world.recipes.len();
        let ghost bound: int = 0x8000_0000_0000_0000;
        let mut coefficients: Vec<i128> = Vec::new();
        while coefficients.len() < n
            invariant
                n == world.n_variables(),
                coefficients@.len() <= n,
                forall|j: int| 0 <= j < coefficients@.len() ==> coefficients@[j] == 0,
            decreases n - coefficients@.len(),
        {
            coefficients.push(0);
        }
        let mut k: usize = 0;
        while k < self.optimizations.len()
            invariant
                world.wf(),
                self.refers_to(world),
                n == world.n_variables(),
                k <= self.optimizations@.len(),
                bound == 0x8000_0000_0000_0000,
                coefficients@.len() == n,
                coefficients_of(coefficients@) =~= objective_of(world, self.optimizations@.take(k as int)),
                forall|j: int| 0 <= j < coefficients@.len() ==> -(k * bound) <= #[trigger] coefficients@[j] <= k * bound,
            decreases self.optimizations@.len() - k,
        {
            let (variable, coefficient) = self.optimizations[k];
            let index = var_of(world, variable);
            assert(-(k * bound) <= coefficients@[index as int] <= k * bound);
            let sum = coefficients[index] + coefficient as i128;
            let ghost before = coefficients@;
            coefficients.set(index, sum);
            k = k + 1;
            assert(self.optimizations@.take(k as int).drop_last() =~= self.optimizations@.take(k - 1));
            assert forall|j: int| 0 <= j < coefficients@.len() implies -(k * bound) <= #[trigger] coefficients@[j]
                <= k * bound by {
                assert(-((k - 1) * bound) <= before[j] <= (k - 1) * bound);
            }
            assert forall|j: int| 0 <= j < n implies #[trigger] coefficients_of(coefficients@)[j] == objective_of(
                world,
                self.optimizations@.take(k as int),
            )[j] by {
                assert(coefficients_of(before)[j] == objective_of(world, self.optimizations@.take(k - 1))[j]);
            }
            assert(coefficients_of(coefficients@) =~= objective_of(world, self.optimizations@.take(k as int)));
        }
        assert(self.optimizations@.take(k as int) =~= self.optimizations@);
        coefficients
    }

    /// Formulates the problem, has the solver maximize it, and takes the factory
    /// from the outcome (see `factory_of_outcome`). Whatever the solver reports, a
    /// factory lists recipes of the world in catalog order, each once, with a
    /// positive throughput, and is the factory taken from some assignment of every
    /// variable.
    pub fn solve<S: LinearSolver>(&self, world: &World, solver: &S) -> (r: Result<Factory, SolveError>)
        requires
            world.wf(),
            self.refers_to(world),
        ensures
            r is Ok ==> is_plan(r->Ok_0.recipes@, world.n_recipes()),
            r is Ok ==> exists|x: Seq<i64>|
                x.len() == world.n_variables() && r->Ok_0.recipes@ == extracted(
                    x,
                    world.n_resources(),
                    world.n_recipes(),
                ),
    {
        let program = self.formulate(world);
        let outcome = solver.maximize(&program);
        let ghost values = if outcome is Optimal {
            outcome->Optimal_0@
        } else {
            Seq::empty()
        };
        let r = factory_of_outcome(world, outcome);
        assert(r is Ok ==> values.len() == world.n_variables() && r->Ok_0.recipes@ == extracted(
            values,
            world.n_resources(),
            world.n_recipes(),
        ));
        r
    }

    /// The linear program of this problem: a free net-flow variable per resource,
    /// then a throughput variable per recipe; the objective; and the constraints
    /// in order: conservation of each resource, non-negativity of each recipe,
    /// the rules in order, and a zero net flow for each resource no rule names.
    pub fn formulate(&self, world: &World) -> (r: LinearProgram)
        requires
            world.wf(),
            self.refers_to(world),
        ensures
            r@ == formulation(world, self.rules@, self.optimizations@),
    {
        let objective = self.objective(world);
        let n_resources = world.resources.len();
        let n_recipes = world.recipes.len();
        let ghost conservation = Seq::new(world.n_resources(), |r: int| conservation_row(world, r as nat));
        let ghost nonnegativity = Seq::new(world.n_recipes(), |i: int| nonnegativity_row(world, i as nat));
        let mut constraints: Vec<LinearConstraint> = Vec::new();
        let mut r: usize = 0;
        while r < n_resources
            invariant
                world.wf(),
                n_resources == world.n_resources(),
                r <= n_resources,
                conservation == Seq::new(world.n_resources(), |r: int| conservation_row(world, r as nat)),
                rows_of(constraints@) =~= conservation.take(r as int),
            decreases n_resources - r,
        {
            let c = conservation_constraint(world, r);
            let ghost old_rows = rows_of(constraints@);
            constraints.push(c);
            assert(rows_of(constraints@) =~= old_rows.push(c@));
            assert(conservation.take(r + 1) =~= conservation.take(r as int).push(c@));
            r = r + 1;
        }
        assert(conservation.take(r as int) =~= conservation);
        let mut i: usize = 0;
        while i < n_recipes
            invariant
                world.wf(),
                n_resources == world.n_resources(),
                n_recipes == world.n_recipes(),
                i <= n_recipes,
                nonnegativity == Seq::new(world.n_recipes(), |i: int| nonnegativity_row(world, i as nat)),
                rows_of(constraints@) =~= conservation + nonnegativity.take(i as int),
            decreases n_recipes - i,
        {
            let c = single_constraint(n_resources + i, Comparison::Greater, 0);
            let ghost old_rows = rows_of(constraints@);
            constraints.push(c);
            assert(rows_of(constraints@) =~= old_rows.push(c@));
            assert(nonnegativity.take(i + 1) =~= nonnegativity.take(i as int).push(c@));
            i = i + 1;
        }
        assert(nonnegativity.take(i as int) =~= nonnegativity);
        let mut k: usize = 0;
        while k < self.rules.len()
            invariant
                world.wf(),
                self.refers_to(world),
                k <= self.rules@.len(),
                rows_of(constraints@) =~= conservation + nonnegativity + rule_rows(world, self.rules@.take(k as int)),
            decreases self.rules@.len() - k,
        {
            let rule = self.rules[k];
            let ghost old_rows = rows_of(constraints@);
            assert(self.rules@.take(k + 1).drop_last() =~= self.rules@.take(k as int));
            let variable = var_of(world, rule.variable);
            match rule.constraint {
                Constraint::Less(t) => {
                    let c = single_constraint(variable, Comparison::Less, t);
                    constraints.push(c);
                    assert(rows_of(constraints@) =~= old_rows.push(c@));
                },
                Constraint::Equal(t) => {
                    let c = single_constraint(variable, Comparison::Equal, t);
                    constraints.push(c);
                    assert(rows_of(constraints@) =~= old_rows.push(c@));
                },
                Constraint::Greater(t) => {
                    let c = single_constraint(variable, Comparison::Greater, t);
                    constraints.push(c);
                    assert(rows_of(constraints@) =~= old_rows.push(c@));
                },
                Constraint::Unconstrained => {},
            }
            k = k + 1;
        }
        assert(self.rules@.take(k as int) =~= self.rules@);
        let unruled = unruled_resources(world, &self.rules);
        let ghost prefix = rows_of(constraints@);
        let mut r: usize = 0;
        while r < n_resources
            invariant
                n_resources == world.n_resources(),
                unruled@.len() == n_resources,
                forall|i: int| 0 <= i < unruled@.len() ==> unruled@[i] == !is_ruled(self.rules@, i as nat),
                r <= n_resources,
                rows_of(constraints@) =~= prefix + default_rows(self.rules@, r as nat),
            decreases n_resources - r,
        {
            if unruled[r] {
                let c = single_constraint(r, Comparison::Equal, 0);
                let ghost old_rows = rows_of(constraints@);
                constraints.push(c);
                assert(rows_of(constraints@) =~= old_rows.push(c@));
            }
            r = r + 1;
        }
        LinearProgram { objective, constraints }
    }
}

} // verus!
