use satisfactory_solver::builder::{
    factory_of_outcome, load_rule_list, save_rule_list, Constraint, LoadRuleListError, Problem, Rule,
    RuleJson, RuleList, RuleListJson, SolveError,
};
use satisfactory_solver::factory::{load_factory, save_factory, Factory, FactoryJson, LoadFactoryError};
use satisfactory_solver::lp::{Comparison, LpOutcome, ONE};
use satisfactory_solver::world::{
    load_world, str_eq, BuildWorldError, LoadWorldError, Recipe, RecipeId, RecipeJson, Resource, ResourceId,
    VariableId, World, WorldJson, RATE_LIMIT,
};

fn world_json() -> WorldJson {
    WorldJson {
        resources: vec!["Ore".to_string(), "Ingot".to_string(), "Ore".to_string()],
        recipes: vec![
            RecipeJson {
                name: "Smelt".to_string(),
                tags: vec!["basic".to_string()],
                rates: vec![("Ore".to_string(), -30 * ONE), ("Ingot".to_string(), 30 * ONE)],
            },
            RecipeJson {
                name: "Pour".to_string(),
                tags: vec![],
                rates: vec![("Ingot".to_string(), -ONE / 2)],
            },
        ],
    }
}

fn world() -> World {
    load_world(world_json()).ok().expect("a world")
}

#[test]
fn loads_world_and_resolves_first_match() {
    let world = world();
    assert_eq!(world.resources.len(), 3);
    assert_eq!(world.recipes.len(), 2);
    assert_eq!(world.recipes[0].rates, vec![(ResourceId(0), -30 * ONE), (ResourceId(1), 30 * ONE)]);
    assert_eq!(world.recipes[0].tags, vec!["basic".to_string()]);
    assert_eq!(world.recipes[1].rates, vec![(ResourceId(1), -500_000)]);
}

#[test]
fn unknown_resource_in_recipe_is_refused() {
    let mut json = world_json();
    json.recipes[1].rates.push(("Slag".to_string(), ONE));
    match load_world(json) {
        Err(LoadWorldError::BadRecipeResource { recipe_name, resource_name }) => {
            assert_eq!(recipe_name, "Pour");
            assert_eq!(resource_name, "Slag");
        }
        _ => panic!("expected a bad recipe resource"),
    }
}

#[test]
fn rate_beyond_limit_is_refused() {
    let mut json = world_json();
    json.recipes[0].rates[1].1 = RATE_LIMIT + 1;
    match load_world(json) {
        Err(LoadWorldError::RateOutOfRange { recipe_name, resource_name }) => {
            assert_eq!(recipe_name, "Smelt");
            assert_eq!(resource_name, "Ingot");
        }
        _ => panic!("expected a rate out of range"),
    }
}

#[test]
fn rate_at_limit_is_accepted() {
    let mut json = world_json();
    json.recipes[0].rates[1].1 = -RATE_LIMIT;
    assert!(load_world(json).is_ok());
}

#[test]
fn names_and_ids() {
    let world = world();
    assert_eq!(world.resource_id_of_name("Ore"), Some(ResourceId(0)));
    assert_eq!(world.resource_id_of_name("Ingot"), Some(ResourceId(1)));
    assert_eq!(world.resource_id_of_name("Slag"), None);
    assert_eq!(world.recipe_id_of_name("Pour"), Some(RecipeId(1)));
    assert_eq!(world.recipe_id_of_name("Bake"), None);
    assert_eq!(world.name_of_resource(ResourceId(1)), "Ingot");
    assert_eq!(world.name_of_recipe(RecipeId(0)), "Smelt");
    assert_eq!(world.name_of_variable(VariableId::Resource(ResourceId(0))), "Resource Ore");
    assert_eq!(world.name_of_variable(VariableId::Recipe(RecipeId(1))), "Recipe Pour");
    assert_eq!(ResourceId(2).variable_id(), VariableId::Resource(ResourceId(2)));
    assert_eq!(RecipeId(1).variable_id(), VariableId::Recipe(RecipeId(1)));
    assert!(str_eq("Ore", "Ore"));
    assert!(!str_eq("Ore", "Ingot"));
}

#[test]
fn rule_list_round_trip() {
    let world = world();
    let json = RuleListJson {
        rules: vec![
            RuleJson::Resource { resource: "Ingot".to_string(), constraint: Constraint::Less(5 * ONE) },
            RuleJson::Recipe { recipe: "Pour".to_string(), constraint: Constraint::Unconstrained },
        ],
    };
    let list = load_rule_list(&world, &json).ok().expect("a rule list");
    assert_eq!(
        list.rules,
        vec![
            Rule { variable: VariableId::Resource(ResourceId(1)), constraint: Constraint::Less(5 * ONE) },
            Rule { variable: VariableId::Recipe(RecipeId(1)), constraint: Constraint::Unconstrained },
        ]
    );
    let saved = save_rule_list(&world, &list);
    assert_eq!(saved.rules.len(), 2);
    match &saved.rules[0] {
        RuleJson::Resource { resource, constraint } => {
            assert_eq!(resource, "Ingot");
            assert_eq!(*constraint, Constraint::Less(5 * ONE));
        }
        _ => panic!("expected a resource rule"),
    }
    match &saved.rules[1] {
        RuleJson::Recipe { recipe, constraint } => {
            assert_eq!(recipe, "Pour");
            assert_eq!(*constraint, Constraint::Unconstrained);
        }
        _ => panic!("expected a recipe rule"),
    }
}

#[test]
fn rule_list_with_unknown_names_is_refused() {
    let world = world();
    let json = RuleListJson {
        rules: vec![RuleJson::Resource { resource: "Slag".to_string(), constraint: Constraint::Equal(0) }],
    };
    assert!(matches!(
        load_rule_list(&world, &json),
        Err(LoadRuleListError::BadResourceName { resource_name }) if resource_name == "Slag"
    ));
    let json = RuleListJson {
        rules: vec![RuleJson::Recipe { recipe: "Bake".to_string(), constraint: Constraint::Equal(0) }],
    };
    assert!(matches!(
        load_rule_list(&world, &json),
        Err(LoadRuleListError::BadRecipeName { recipe_name }) if recipe_name == "Bake"
    ));
    let empty = RuleList { rules: vec![] };
    assert!(save_rule_list(&world, &empty).rules.is_empty());
}

#[test]
fn factory_round_trip() {
    let world = world();
    let json = FactoryJson { recipes: vec![("Pour".to_string(), 3 * ONE), ("Smelt".to_string(), ONE)] };
    let factory = load_factory(&world, &json).ok().expect("a factory");
    assert_eq!(factory.recipes, vec![(RecipeId(1), 3 * ONE), (RecipeId(0), ONE)]);
    let saved = save_factory(&world, &factory);
    assert_eq!(saved.recipes, vec![("Pour".to_string(), 3 * ONE), ("Smelt".to_string(), ONE)]);
}

#[test]
fn factory_with_unknown_recipe_is_refused() {
    let world = world();
    let json = FactoryJson { recipes: vec![("Bake".to_string(), ONE)] };
    assert!(matches!(
        load_factory(&world, &json),
        Err(LoadFactoryError::BadRecipeName { recipe_name }) if recipe_name == "Bake"
    ));
}

#[test]
fn net_resources_sums_in_entry_order() {
    let world = world();
    let factory = Factory { recipes: vec![(RecipeId(1), 2 * ONE), (RecipeId(0), ONE / 10)] };
    assert!(factory.is_reportable(&world));
    let net = factory.net_resources(&world);
    let unit = (ONE as i128) * (ONE as i128);
    assert_eq!(net.resources.len(), 3);
    assert_eq!(net.resources[0].0, -3 * unit);
    assert_eq!(net.resources[0].1, vec![(RecipeId(0), -3 * unit)]);
    assert_eq!(net.resources[1].0, 2 * unit);
    assert_eq!(net.resources[1].1, vec![(RecipeId(1), -unit), (RecipeId(0), 3 * unit)]);
    assert_eq!(net.resources[2].0, 0);
    assert!(net.resources[2].1.is_empty());
    let again = factory.net_resources(&world);
    assert_eq!(net.resources, again.resources);
}

#[test]
fn reportable_checks_ids_and_limits() {
    let world = world();
    assert!(!Factory { recipes: vec![(RecipeId(2), ONE)] }.is_reportable(&world));
    assert!(!Factory { recipes: vec![(RecipeId(0), i64::MAX)] }.is_reportable(&world));
    assert!(Factory { recipes: vec![] }.is_reportable(&world));
}

#[test]
fn formulation_rows_in_order() {
    let world = world();
    let problem = Problem {
        rules: vec![
            Rule { variable: VariableId::Resource(ResourceId(1)), constraint: Constraint::Greater(7) },
            Rule { variable: VariableId::Recipe(RecipeId(0)), constraint: Constraint::Unconstrained },
            Rule { variable: VariableId::Recipe(RecipeId(1)), constraint: Constraint::Less(9) },
        ],
        optimizations: vec![
            (VariableId::Recipe(RecipeId(1)), 4),
            (VariableId::Resource(ResourceId(1)), 2),
            (VariableId::Recipe(RecipeId(1)), 5),
        ],
    };
    let program = problem.formulate(&world);
    // Variables: Ore, Ingot, Ore, Smelt, Pour.
    assert_eq!(program.objective, vec![0, 2, 0, 0, 9]);
    let rows: Vec<(Vec<(usize, i64)>, Comparison, i64)> =
        program.constraints.iter().map(|c| (c.terms.clone(), c.comparison, c.rhs)).collect();
    assert_eq!(
        rows,
        vec![
            (vec![(3, -30 * ONE), (0, -ONE)], Comparison::Equal, 0),
            (vec![(3, 30 * ONE), (4, -ONE / 2), (1, -ONE)], Comparison::Equal, 0),
            (vec![(2, -ONE)], Comparison::Equal, 0),
            (vec![(3, ONE)], Comparison::Greater, 0),
            (vec![(4, ONE)], Comparison::Greater, 0),
            (vec![(1, ONE)], Comparison::Greater, 7),
            (vec![(4, ONE)], Comparison::Less, 9),
            (vec![(0, ONE)], Comparison::Equal, 0),
            (vec![(2, ONE)], Comparison::Equal, 0),
        ]
    );
}

#[test]
fn outcome_errors() {
    let world = world();
    assert!(matches!(factory_of_outcome(&world, LpOutcome::Infeasible), Err(SolveError::Infeasible)));
    assert!(matches!(factory_of_outcome(&world, LpOutcome::Unbounded), Err(SolveError::Unbounded)));
    assert!(matches!(
        factory_of_outcome(&world, LpOutcome::Optimal(vec![0, 0, 0, 1])),
        Err(SolveError::IncompleteSolution)
    ));
}

#[test]
fn outcome_keeps_positive_recipes() {
    let world = world();
    let factory = factory_of_outcome(&world, LpOutcome::Optimal(vec![-9, 4, 0, 0, 1_500_000]))
        .ok()
        .expect("a factory");
    assert_eq!(factory.recipes, vec![(RecipeId(1), 1_500_000)]);
    let factory = factory_of_outcome(&world, LpOutcome::Optimal(vec![0, 0, 0, 7, -1]))
        .ok()
        .expect("a factory");
    assert_eq!(factory.recipes, vec![(RecipeId(0), 7)]);
}

fn plain_recipe(name: &str, tags: &[&str], rates: Vec<(usize, i64)>) -> Recipe {
    Recipe {
        name: name.to_string(),
        tags: tags.iter().map(|t| t.to_string()).collect(),
        rates: rates.into_iter().map(|(r, x)| (ResourceId(r), x)).collect(),
    }
}

fn plain_resources() -> Vec<Resource> {
    vec![Resource { name: "Ore".to_string() }, Resource { name: "Ingot".to_string() }]
}

#[test]
fn build_accepts_valid_catalog() {
    let world = World::build(plain_resources(), vec![plain_recipe("Smelt", &[], vec![(0, -ONE), (1, ONE)])])
        .ok()
        .expect("a world");
    assert_eq!(world.resources.len(), 2);
    assert_eq!(world.recipes[0].rates, vec![(ResourceId(0), -ONE), (ResourceId(1), ONE)]);
}

#[test]
fn build_refuses_unknown_resource_id() {
    let result = World::build(
        plain_resources(),
        vec![plain_recipe("Smelt", &[], vec![(0, -ONE)]), plain_recipe("Bake", &[], vec![(1, ONE), (2, ONE)])],
    );
    assert_eq!(result.err(), Some(BuildWorldError::UnknownResource { recipe: 1, rate: 1 }));
}

#[test]
fn build_refuses_rate_beyond_limit() {
    let result = World::build(plain_resources(), vec![plain_recipe("Smelt", &[], vec![(0, -RATE_LIMIT - 1)])]);
    assert_eq!(result.err(), Some(BuildWorldError::RateOutOfRange { recipe: 0, rate: 0 }));
}

#[test]
fn tags_in_order_of_first_appearance() {
    let world = World {
        resources: plain_resources(),
        recipes: vec![
            plain_recipe("A", &["alt", "early"], vec![]),
            plain_recipe("B", &[], vec![]),
            plain_recipe("C", &["early", "late", "alt"], vec![]),
        ],
    };
    assert_eq!(world.tags(), vec!["alt".to_string(), "early".to_string(), "late".to_string()]);
}

#[test]
fn filter_keeps_flagged_recipes() {
    let world = World {
        resources: plain_resources(),
        recipes: vec![
            plain_recipe("A", &[], vec![(0, 1)]),
            plain_recipe("B", &[], vec![(1, 2)]),
            plain_recipe("C", &[], vec![(0, 3)]),
        ],
    };
    let filtered = world.filter_recipes(&vec![true, false, true]);
    assert_eq!(filtered.resources.len(), 2);
    let names: Vec<&str> = filtered.recipes.iter().map(|r| r.name.as_str()).collect();
    assert_eq!(names, vec!["A", "C"]);
    assert_eq!(filtered.recipes[1].rates, vec![(ResourceId(0), 3)]);
}

#[test]
fn world_error_names_first_bad_rate() {
    let mut json = world_json();
    json.recipes[0].rates.push(("Coal".to_string(), ONE));
    json.recipes[0].rates.push(("Slag".to_string(), ONE));
    json.recipes[1].rates.insert(0, ("Dust".to_string(), ONE));
    match load_world(json) {
        Err(LoadWorldError::BadRecipeResource { recipe_name, resource_name }) => {
            assert_eq!(recipe_name, "Smelt");
            assert_eq!(resource_name, "Coal");
        }
        _ => panic!("expected a bad recipe resource"),
    }
}

#[test]
fn rule_list_error_names_first_unknown() {
    let world = world();
    let json = RuleListJson {
        rules: vec![
            RuleJson::Resource { resource: "Ore".to_string(), constraint: Constraint::Equal(0) },
            RuleJson::Recipe { recipe: "Ore".to_string(), constraint: Constraint::Equal(0) },
            RuleJson::Resource { resource: "Slag".to_string(), constraint: Constraint::Equal(0) },
        ],
    };
    assert!(matches!(
        load_rule_list(&world, &json),
        Err(LoadRuleListError::BadRecipeName { recipe_name }) if recipe_name == "Ore"
    ));
}

#[test]
fn factory_error_names_first_unknown() {
    let world = world();
    let json = FactoryJson {
        recipes: vec![("Smelt".to_string(), ONE), ("Bake".to_string(), ONE), ("Fry".to_string(), ONE)],
    };
    assert!(matches!(
        load_factory(&world, &json),
        Err(LoadFactoryError::BadRecipeName { recipe_name }) if recipe_name == "Bake"
    ));
}

#[test]
fn repeated_objective_entries_add() {
    let world = world();
    let problem = Problem {
        rules: vec![],
        optimizations: vec![
            (VariableId::Resource(ResourceId(0)), 1),
            (VariableId::Resource(ResourceId(0)), 2),
            (VariableId::Recipe(RecipeId(0)), i64::MAX),
            (VariableId::Recipe(RecipeId(0)), i64::MAX),
        ],
    };
    let program = problem.formulate(&world);
    assert_eq!(program.objective, vec![3, 0, 0, 2 * (i64::MAX as i128), 0]);
}

#[test]
fn build_names_first_failure() {
    let result = World::build(
        plain_resources(),
        vec![
            plain_recipe("Smelt", &[], vec![(0, -ONE), (1, RATE_LIMIT + 1)]),
            plain_recipe("Bake", &[], vec![(5, ONE)]),
        ],
    );
    assert_eq!(result.err(), Some(BuildWorldError::RateOutOfRange { recipe: 0, rate: 1 }));
}
