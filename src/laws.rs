use vstd::prelude::*;

use crate::builder::{
    conservation_row, conservation_terms, default_row, default_rows, formulation, formulation_rows,
    is_ruled, nonnegativity_row, resource_terms, rule_row, rule_rows, Constraint, Problem, Rule,
};
use crate::factory::{
    contributions, entry_contributions, extracted, net_flow, report, total, Factory, NetResources,
};
use crate::lp::{feasible, row_holds, row_sum, ONE};
use crate::world::{RecipeId, ResourceId, VariableId, World};

verus! {

/// The throughput that the entries give recipe `i`: the sum over its entries.
pub open spec fn throughput_of(entries: Seq<(RecipeId, i64)>, i: nat) -> int
    decreases entries.len(),
{
    if entries.len() == 0 {
        0
    } else if entries.last().0.0 == i {
        throughput_of(entries.drop_last(), i) + entries.last().1
    } else {
        throughput_of(entries.drop_last(), i)
    }
}

/// The solved value of a variable under the entries, in millionths of millionths:
/// a resource's net flow, or a recipe's throughput.
pub open spec fn solved_value(world: &World, entries: Seq<(RecipeId, i64)>, v: VariableId) -> int {
    match v {
        VariableId::Resource(r) => net_flow(world, entries, r.0 as nat),
        VariableId::Recipe(i) => throughput_of(entries, i.0 as nat) * ONE,
    }
}

/// Whether a value (in millionths of millionths) meets a constraint (in millionths).
pub open spec fn meets(value: int, constraint: Constraint) -> bool {
    match constraint {
        Constraint::Less(t) => value <= t * ONE,
        Constraint::Equal(t) => value == t * ONE,
        Constraint::Greater(t) => value >= t * ONE,
        Constraint::Unconstrained => true,
    }
}

proof fn lemma_row_sum_concat(a: Seq<(usize, i64)>, b: Seq<(usize, i64)>, x: Seq<i64>)
    ensures
        row_sum(a + b, x) == row_sum(a, x) + row_sum(b, x),
    decreases b.len(),
{
    if b.len() == 0 {
        assert(a + b =~= a);
    } else {
        assert((a + b).drop_last() =~= a + b.drop_last());
        lemma_row_sum_concat(a, b.drop_last(), x);
    }
}

proof fn lemma_total_concat(a: Seq<(RecipeId, int)>, b: Seq<(RecipeId, int)>)
    ensures
        total(a + b) == total(a) + total(b),
    decreases b.len(),
{
    if b.len() == 0 {
        assert(a + b =~= a);
    } else {
        assert((a + b).drop_last() =~= a + b.drop_last());
        lemma_total_concat(a, b.drop_last());
    }
}

proof fn lemma_single_row_sum(v: usize, c: i64, x: Seq<i64>)
    ensures
        row_sum(seq![(v, c)], x) == c * x[v as int],
{
    let s = seq![(v, c)];
    assert(s.drop_last() =~= Seq::<(usize, i64)>::empty());
    assert(s.last() == (v, c));
    assert(row_sum(Seq::<(usize, i64)>::empty(), x) == 0);
}

/// One recipe's terms in a conservation row sum to its parts in the report.
proof fn lemma_recipe_terms(id: RecipeId, rates: Seq<(ResourceId, i64)>, r: nat, var: usize, x: Seq<i64>)
    ensures
        row_sum(resource_terms(rates, r, var), x) == total(entry_contributions(id, x[var as int], rates, r)),
    decreases rates.len(),
{
    if rates.len() > 0 {
        lemma_recipe_terms(id, rates.drop_last(), r, var, x);
        let terms = resource_terms(rates.drop_last(), r, var);
        let parts = entry_contributions(id, x[var as int], rates.drop_last(), r);
        if rates.last().0.0 == r {
            assert(terms.push((var, rates.last().1)).drop_last() =~= terms);
            assert(parts.push((id, x[var as int] * rates.last().1)).drop_last() =~= parts);
            assert(rates.last().1 * x[var as int] == x[var as int] * rates.last().1) by (nonlinear_arith);
        }
    }
}

proof fn lemma_idle_recipe(id: RecipeId, rates: Seq<(ResourceId, i64)>, r: nat)
    ensures
        total(entry_contributions(id, 0, rates, r)) == 0,
    decreases rates.len(),
{
    if rates.len() > 0 {
        lemma_idle_recipe(id, rates.drop_last(), r);
        let parts = entry_contributions(id, 0, rates.drop_last(), r);
        if rates.last().0.0 == r {
            assert(parts.push((id, 0 * rates.last().1)).drop_last() =~= parts);
        }
    }
}

/// With no negative throughput, the terms of the first `n` recipes in resource
/// `r`'s conservation row sum to `r`'s net flow in the factory taken from `x`.
proof fn lemma_conservation_is_net_flow(world: &World, r: nat, n: nat, x: Seq<i64>)
    requires
        world.wf(),
        n <= world.n_recipes(),
        x.len() == world.n_variables(),
        forall|i: int| 0 <= i < world.n_recipes() ==> #[trigger] x[world.n_resources() + i] >= 0,
    ensures
        row_sum(conservation_terms(world, r, n), x) == net_flow(world, extracted(x, world.n_resources(), n), r),
    decreases n,
{
    if n > 0 {
        let nr = world.n_resources();
        lemma_conservation_is_net_flow(world, r, (n - 1) as nat, x);
        let var = (nr + n - 1) as usize;
        let rates = world.rates_of(n - 1);
        let id = RecipeId((n - 1) as usize);
        lemma_row_sum_concat(conservation_terms(world, r, (n - 1) as nat), resource_terms(rates, r, var), x);
        lemma_recipe_terms(id, rates, r, var, x);
        let before = extracted(x, nr, (n - 1) as nat);
        assert(x[nr + (n - 1)] >= 0);
        if x[nr + n - 1] > 0 {
            let after = before.push((id, x[nr + n - 1]));
            assert(after.drop_last() =~= before);
            lemma_total_concat(contributions(world, before, r), entry_contributions(id, x[nr + n - 1], rates, r));
        } else {
            lemma_idle_recipe(id, rates, r);
        }
    }
}

/// A recipe's throughput in the factory taken from `x`, with no negative value.
proof fn lemma_extracted_throughput(x: Seq<i64>, nr: nat, n: nat, i: nat)
    requires
        x.len() >= nr + n,
        nr + n <= usize::MAX,
        forall|k: int| 0 <= k < n ==> #[trigger] x[nr + k] >= 0,
    ensures
        throughput_of(extracted(x, nr, n), i) == if i < n { x[nr + i as int] as int } else { 0 },
    decreases n,
{
    if n > 0 {
        lemma_extracted_throughput(x, nr, (n - 1) as nat, i);
        let before = extracted(x, nr, (n - 1) as nat);
        assert(x[nr + (n - 1)] >= 0);
        if x[nr + n - 1] > 0 {
            assert(before.push((RecipeId((n - 1) as usize), x[nr + n - 1])).drop_last() =~= before);
        }
    }
}

proof fn lemma_default_row_index(rules: Seq<Rule>, n: nat, r: nat) -> (idx: int)
    requires
        r < n,
        !is_ruled(rules, r),
    ensures
        0 <= idx < default_rows(rules, n).len(),
        default_rows(rules, n)[idx] == default_row(r),
    decreases n,
{
    if r == n - 1 {
        default_rows(rules, (n - 1) as nat).len() as int
    } else {
        let idx = lemma_default_row_index(rules, (n - 1) as nat, r);
        idx
    }
}

proof fn lemma_rule_row_index(world: &World, rules: Seq<Rule>, k: int) -> (idx: int)
    requires
        0 <= k < rules.len(),
        rules[k].constraint != Constraint::Unconstrained,
    ensures
        0 <= idx < rule_rows(world, rules).len(),
        rule_rows(world, rules)[idx] == rule_row(world, rules[k])[0],
    decreases rules.len(),
{
    let before = rule_rows(world, rules.drop_last());
    if k == rules.len() - 1 {
        before.len() as int
    } else {
        let idx = lemma_rule_row_index(world, rules.drop_last(), k);
        assert(rules.drop_last()[k] == rules[k]);
        idx
    }
}

/// What holds of any assignment that meets every constraint: throughputs are not
/// negative, and each resource's net-flow variable equals its net flow in the
/// factory taken from the assignment.
proof fn lemma_feasible_net_flows(world: &World, problem: &Problem, x: Seq<i64>)
    requires
        world.wf(),
        problem.refers_to(world),
        feasible(formulation(world, problem.rules@, problem.optimizations@), x),
    ensures
        forall|i: int| 0 <= i < world.n_recipes() ==> #[trigger] x[world.n_resources() + i] >= 0,
        forall|r: nat|
            r < world.n_resources() ==> net_flow(world, extracted(x, world.n_resources(), world.n_recipes()), r)
                == ONE * #[trigger] x[r as int],
{
    let rows = formulation_rows(world, problem.rules@);
    let program = formulation(world, problem.rules@, problem.optimizations@);
    assert(program.1 == rows);
    assert(x.len() == program.0.len());
    assert(x.len() == world.n_variables());
    let nr = world.n_resources();
    let nc = world.n_recipes();
    assert forall|i: int| 0 <= i < nc implies #[trigger] x[nr + i] >= 0 by {
        assert(rows[nr + i] == nonnegativity_row(world, i as nat));
        assert(row_holds(program.1[nr + i], x));
        lemma_single_row_sum((nr + i) as usize, ONE, x);
    }
    assert forall|r: nat| r < nr implies net_flow(world, extracted(x, nr, nc), r) == ONE * #[trigger] x[r as int] by {
        assert(rows[r as int] == conservation_row(world, r));
        assert(row_holds(program.1[r as int], x));
        let terms = conservation_terms(world, r, nc);
        lemma_row_sum_concat(terms, seq![(r as usize, (-ONE) as i64)], x);
        assert(terms.push((r as usize, (-ONE) as i64)) =~= terms + seq![(r as usize, (-ONE) as i64)]);
        lemma_single_row_sum(r as usize, (-ONE) as i64, x);
        lemma_conservation_is_net_flow(world, r, nc, x);
        assert(row_sum(terms, x) - ONE * x[r as int] == 0);
    }
}

/// Conservation: for an assignment that meets every constraint of a problem's
/// program, every resource that no rule names has a net flow of zero in the
/// factory taken from the assignment.
pub proof fn unruled_resources_balance(world: &World, problem: &Problem, x: Seq<i64>)
    requires
        world.wf(),
        problem.refers_to(world),
        feasible(formulation(world, problem.rules@, problem.optimizations@), x),
    ensures
        forall|r: nat|
            r < world.n_resources() && !is_ruled(problem.rules@, r) ==> #[trigger] net_flow(
                world,
                extracted(x, world.n_resources(), world.n_recipes()),
                r,
            ) == 0,
{
    lemma_feasible_net_flows(world, problem, x);
    let rules = problem.rules@;
    let rows = formulation_rows(world, rules);
    let program = formulation(world, rules, problem.optimizations@);
    assert(program.1 == rows);
    let nr = world.n_resources();
    let nc = world.n_recipes();
    assert forall|r: nat| r < nr && !is_ruled(rules, r) implies #[trigger] net_flow(world, extracted(x, nr, nc), r)
        == 0 by {
        let idx = lemma_default_row_index(rules, nr, r);
        let at = nr + nc + rule_rows(world, rules).len() + idx;
        assert(rows[at] == default_row(r));
        assert(row_holds(program.1[at], x));
        lemma_single_row_sum(r as usize, ONE, x);
        assert(ONE * x[r as int] == 0);
    }
}

/// Rule satisfaction: for an assignment that meets every constraint of a
/// problem's program, every rule holds of the solved value of its variable in
/// the factory taken from the assignment.
pub proof fn rules_hold(world: &World, problem: &Problem, x: Seq<i64>)
    requires
        world.wf(),
        problem.refers_to(world),
        feasible(formulation(world, problem.rules@, problem.optimizations@), x),
    ensures
        forall|k: int|
            0 <= k < problem.rules@.len() ==> meets(
                solved_value(world, extracted(x, world.n_resources(), world.n_recipes()), (#[trigger] problem.rules@[k]).variable),
                problem.rules@[k].constraint,
            ),
{
    lemma_feasible_net_flows(world, problem, x);
    let rules = problem.rules@;
    let rows = formulation_rows(world, rules);
    let program = formulation(world, rules, problem.optimizations@);
    assert(program.1 == rows);
    let nr = world.n_resources();
    let nc = world.n_recipes();
    let entries = extracted(x, nr, nc);
    assert forall|k: int| 0 <= k < rules.len() implies meets(
        solved_value(world, entries, (#[trigger] rules[k]).variable),
        rules[k].constraint,
    ) by {
        let rule = rules[k];
        assert(world.valid_variable(rules[k].variable));
        if rule.constraint != Constraint::Unconstrained {
            let idx = lemma_rule_row_index(world, rules, k);
            let at = nr + nc + idx;
            assert(rows[at] == rule_row(world, rule)[0]);
            assert(row_holds(program.1[at], x));
            match rule.variable {
                VariableId::Resource(r) => {
                    lemma_single_row_sum(r.0, ONE, x);
                },
                VariableId::Recipe(i) => {
                    lemma_single_row_sum((nr + i.0) as usize, ONE, x);
                    lemma_extracted_throughput(x, nr, nc, i.0 as nat);
                },
            }
        }
    }
}

/// Reproducibility: two reports of the same factory over the same world hold the
/// same numbers, entry for entry.
pub proof fn reports_agree(world: &World, factory: &Factory, first: &NetResources, second: &NetResources)
    requires
        first@ == report(world, factory.recipes@),
        second@ == report(world, factory.recipes@),
    ensures
        first.resources@.len() == second.resources@.len(),
        forall|r: int|
            0 <= r < first.resources@.len() ==> {
                &&& (#[trigger] first.resources@[r]).0 == second.resources@[r].0
                &&& first.resources@[r].1@ == second.resources@[r].1@
            },
{
    assert(first@.len() == first.resources@.len());
    assert(second@.len() == second.resources@.len());
    assert forall|r: int| 0 <= r < first.resources@.len() implies {
        &&& (#[trigger] first.resources@[r]).0 == second.resources@[r].0
        &&& first.resources@[r].1@ == second.resources@[r].1@
    } by {
        assert(first@[r] == second@[r]);
        let a = first.resources@[r].1@;
        let b = second.resources@[r].1@;
        assert(first@[r] == (first.resources@[r].0 as int, a.map_values(|p: (RecipeId, i128)| (p.0, p.1 as int))));
        assert(second@[r] == (second.resources@[r].0 as int, b.map_values(|p: (RecipeId, i128)| (p.0, p.1 as int))));
        assert(a.len() == b.len());
        assert forall|j: int| 0 <= j < a.len() implies a[j] == b[j] by {
            assert(first@[r].1[j] == second@[r].1[j]);
        }
        assert(a =~= b);
    }
}

} // verus!
