use satisfactory_solver::builder::{Constraint, Problem, Rule, SolveError};
use satisfactory_solver::factory::Factory;
use satisfactory_solver::lp::{Comparison, LinearProgram, LinearSolver, LpOutcome, ONE};
use satisfactory_solver::world::{RecipeId, Recipe, Resource, ResourceId, VariableId, World};

/// A backend over minilp; numbers cross in millionths.
struct Minilp;

impl LinearSolver for Minilp {
    fn maximize(&self, program: &LinearProgram) -> LpOutcome {
        let scale = ONE as f64;
        let mut problem = minilp::Problem::new(minilp::OptimizationDirection::Maximize);
        let variables: Vec<minilp::Variable> = program
            .objective
            .iter()
            .map(|&c| problem.add_var(c as f64 / scale, (f64::NEG_INFINITY, f64::INFINITY)))
            .collect();
        for constraint in program.constraints.iter() {
            let terms: Vec<(minilp::Variable, f64)> = constraint
                .terms
                .iter()
                .map(|&(v, c)| (variables[v], c as f64 / scale))
                .collect();
            let op = match constraint.comparison {
                Comparison::Less => minilp::ComparisonOp::Le,
                Comparison::Equal => minilp::ComparisonOp::Eq,
                Comparison::Greater => minilp::ComparisonOp::Ge,
            };
            problem.add_constraint(terms, op, constraint.rhs as f64 / scale);
        }
        match problem.solve() {
            Ok(solution) => {
                let values: Vec<f64> = variables.iter().map(|&v| *solution.var_value(v)).collect();
                // minilp returns Unbounded only from one pivot step; when the
                // objective grows along free variables it can instead finish with
                // an infinite value (a single free resource fed by one recipe does)
                if values.iter().any(|v| !v.is_finite()) {
                    LpOutcome::Unbounded
                } else {
                    // round each value to millionths
                    LpOutcome::Optimal(values.iter().map(|v| (v * scale).round() as i64).collect())
                }
            }
            Err(minilp::Error::Infeasible) => LpOutcome::Infeasible,
            Err(minilp::Error::Unbounded) => LpOutcome::Unbounded,
        }
    }
}

fn resource(name: &str) -> Resource {
    Resource { name: name.to_string() }
}

fn recipe(name: &str, rates: Vec<(usize, i64)>) -> Recipe {
    Recipe {
        name: name.to_string(),
        tags: Vec::new(),
        rates: rates.into_iter().map(|(r, x)| (ResourceId(r), x * ONE)).collect(),
    }
}

fn smelting_world() -> World {
    World {
        resources: vec![resource("Ore"), resource("Ingot")],
        recipes: vec![recipe("Smelt", vec![(0, -30), (1, 30)])],
    }
}

#[test]
fn balanced_production_without_ingot_rule() {
    // Ingot carries no rule, so it must balance: nothing can run.
    let world = smelting_world();
    let problem = Problem {
        rules: vec![Rule {
            variable: VariableId::Resource(ResourceId(0)),
            constraint: Constraint::Greater(-60 * ONE),
        }],
        optimizations: vec![(VariableId::Resource(ResourceId(1)), ONE)],
    };
    let factory = problem.solve(&world, &Minilp).ok().expect("a factory");
    assert!(factory.recipes.is_empty());
}

#[test]
fn balanced_production() {
    let world = smelting_world();
    let problem = Problem {
        rules: vec![
            Rule {
                variable: VariableId::Resource(ResourceId(0)),
                constraint: Constraint::Greater(-60 * ONE),
            },
            Rule {
                variable: VariableId::Resource(ResourceId(1)),
                constraint: Constraint::Unconstrained,
            },
        ],
        optimizations: vec![(VariableId::Resource(ResourceId(1)), ONE)],
    };
    let factory = problem.solve(&world, &Minilp).ok().expect("a factory");
    assert_eq!(factory.recipes, vec![(RecipeId(0), 2 * ONE)]);
    let net = factory.net_resources(&world);
    let unit = (ONE as i128) * (ONE as i128);
    assert_eq!(net.resources[0].0, -60 * unit);
    assert_eq!(net.resources[1].0, 60 * unit);
    assert_eq!(net.resources[0].1, vec![(RecipeId(0), -60 * unit)]);
    assert_eq!(net.resources[1].1, vec![(RecipeId(0), 60 * unit)]);
}

#[test]
fn infeasible_rule() {
    let world = smelting_world();
    let problem = Problem {
        rules: vec![Rule {
            variable: VariableId::Resource(ResourceId(1)),
            constraint: Constraint::Equal(100 * ONE),
        }],
        optimizations: vec![(VariableId::Resource(ResourceId(1)), ONE)],
    };
    assert!(matches!(problem.solve(&world, &Minilp), Err(SolveError::Infeasible)));
}

#[test]
fn unbounded_objective() {
    let world = World {
        resources: vec![resource("Gas")],
        recipes: vec![recipe("Vent", vec![(0, 5)])],
    };
    let problem = Problem {
        rules: vec![Rule {
            variable: VariableId::Resource(ResourceId(0)),
            constraint: Constraint::Unconstrained,
        }],
        optimizations: vec![(VariableId::Resource(ResourceId(0)), ONE)],
    };
    assert!(matches!(problem.solve(&world, &Minilp), Err(SolveError::Unbounded)));
}

#[test]
fn default_balance_couples_recipes() {
    // Smelt: 1 Ore -> 1 Ingot + 1 Slag; Bake: 2 Slag -> 1 Brick.
    let world = World {
        resources: vec![resource("Ore"), resource("Ingot"), resource("Slag"), resource("Brick")],
        recipes: vec![
            recipe("Smelt", vec![(0, -1), (1, 1), (2, 1)]),
            recipe("Bake", vec![(2, -2), (3, 1)]),
        ],
    };
    let problem = Problem {
        rules: vec![
            Rule {
                variable: VariableId::Resource(ResourceId(0)),
                constraint: Constraint::Greater(-10 * ONE),
            },
            Rule {
                variable: VariableId::Resource(ResourceId(1)),
                constraint: Constraint::Unconstrained,
            },
            Rule {
                variable: VariableId::Resource(ResourceId(3)),
                constraint: Constraint::Unconstrained,
            },
        ],
        optimizations: vec![(VariableId::Resource(ResourceId(1)), ONE)],
    };
    let factory = problem.solve(&world, &Minilp).ok().expect("a factory");
    assert_eq!(factory.recipes, vec![(RecipeId(0), 10 * ONE), (RecipeId(1), 5 * ONE)]);
    let net = factory.net_resources(&world);
    assert_eq!(net.resources[2].0, 0);
    assert_eq!(net.resources[2].1.len(), 2);
}

#[test]
fn unruled_resources_net_to_zero() {
    let world = smelting_world();
    let problem = Problem {
        rules: vec![Rule {
            variable: VariableId::Recipe(RecipeId(0)),
            constraint: Constraint::Less(3 * ONE),
        }],
        optimizations: vec![(VariableId::Recipe(RecipeId(0)), ONE)],
    };
    // Ore and Ingot carry no rule, so both must balance; only zero throughput does.
    let factory = problem.solve(&world, &Minilp).ok().expect("a factory");
    assert!(factory.recipes.is_empty());
    let net = factory.net_resources(&world);
    assert_eq!(net.resources[0].0, 0);
    assert_eq!(net.resources[1].0, 0);
}

#[test]
fn recipe_rule_is_met() {
    let world = smelting_world();
    let problem = Problem {
        rules: vec![
            Rule {
                variable: VariableId::Recipe(RecipeId(0)),
                constraint: Constraint::Less(3 * ONE / 2),
            },
            Rule {
                variable: VariableId::Resource(ResourceId(0)),
                constraint: Constraint::Unconstrained,
            },
            Rule {
                variable: VariableId::Resource(ResourceId(1)),
                constraint: Constraint::Unconstrained,
            },
        ],
        optimizations: vec![(VariableId::Resource(ResourceId(1)), ONE)],
    };
    let factory = problem.solve(&world, &Minilp).ok().expect("a factory");
    assert_eq!(factory.recipes, vec![(RecipeId(0), 1_500_000)]);
    let net = factory.net_resources(&world);
    assert_eq!(net.resources[1].0, 45 * (ONE as i128) * (ONE as i128));
}

#[test]
fn solved_rates_are_positive_millionths() {
    let world = World {
        resources: vec![resource("Ore"), resource("Ingot")],
        recipes: vec![recipe("Smelt", vec![(0, -3), (1, 1)]), recipe("Idle", vec![(1, 1)])],
    };
    let problem = Problem {
        rules: vec![
            Rule {
                variable: VariableId::Resource(ResourceId(0)),
                constraint: Constraint::Equal(-1 * ONE),
            },
            Rule {
                variable: VariableId::Recipe(RecipeId(1)),
                constraint: Constraint::Equal(0),
            },
            Rule {
                variable: VariableId::Resource(ResourceId(1)),
                constraint: Constraint::Unconstrained,
            },
        ],
        optimizations: vec![],
    };
    let factory = problem.solve(&world, &Minilp).ok().expect("a factory");
    // One third, rounded to millionths; the idle recipe is left out.
    assert_eq!(factory.recipes, vec![(RecipeId(0), 333_333)]);
    assert!(factory.recipes.iter().all(|&(_, rate)| rate > 0));
}

#[test]
fn solving_twice_gives_the_same_factory() {
    let world = smelting_world();
    let problem = Problem {
        rules: vec![Rule {
            variable: VariableId::Resource(ResourceId(0)),
            constraint: Constraint::Greater(-60 * ONE),
        }],
        optimizations: vec![(VariableId::Resource(ResourceId(1)), ONE)],
    };
    let first: Factory = problem.solve(&world, &Minilp).ok().expect("a factory");
    let second: Factory = problem.solve(&world, &Minilp).ok().expect("a factory");
    assert_eq!(first.recipes, second.recipes);
}
