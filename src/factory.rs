use vstd::prelude::*;
use vstd::string::*;

use crate::world::{first_index_of, rate_in_range, RecipeId, ResourceId, World};

verus! {

/// Largest throughput of a factory entry that a report accepts, in millionths.
pub const THROUGHPUT_LIMIT: i64 = 1_000_000_000_000_000;

/// Most entries of a factory that a report accepts.
pub const ENTRY_LIMIT: usize = 1_000_000;

/// Most rates of one recipe that a report accepts.
pub const RECIPE_RATE_LIMIT: usize = 4096;

/// A production plan: recipes and their throughputs, in millionths.
pub struct Factory {
    pub recipes: Vec<(RecipeId, i64)>,
}

/// Per resource, its net flow and each recipe's part in it, in millionths of
/// millionths (throughput times rate).
pub struct NetResources {
    pub resources: Vec<(i128, Vec<(RecipeId, i128)>)>,
}

/// A report as the contracts see it.
pub type Report = Seq<(int, Seq<(RecipeId, int)>)>;

impl View for NetResources {
    type V = Report;

    open spec fn view(&self) -> Report {
        report_of(self.resources@)
    }
}

pub open spec fn report_of(resources: Seq<(i128, Vec<(RecipeId, i128)>)>) -> Report {
    resources.map_values(
        |e: (i128, Vec<(RecipeId, i128)>)| (e.0 as int, e.1@.map_values(|p: (RecipeId, i128)| (p.0, p.1 as int))),
    )
}

/// The parts that one entry `(id, throughput)` adds to resource `r`, one per
/// rate that names `r`, in order.
pub open spec fn entry_contributions(
    id: RecipeId,
    throughput: i64,
    rates: Seq<(ResourceId, i64)>,
    r: nat,
) -> Seq<(RecipeId, int)>
    decreases rates.len(),
{
    if rates.len() == 0 {
        Seq::empty()
    } else if rates.last().0.0 == r {
        entry_contributions(id, throughput, rates.drop_last(), r).push((id, throughput * rates.last().1))
    } else {
        entry_contributions(id, throughput, rates.drop_last(), r)
    }
}

/// The parts that the entries add to resource `r`, in entry order.
pub open spec fn contributions(world: &World, entries: Seq<(RecipeId, i64)>, r: nat) -> Seq<(RecipeId, int)>
    decreases entries.len(),
{
    if entries.len() == 0 {
        Seq::empty()
    } else {
        contributions(world, entries.drop_last(), r) + entry_contributions(
            entries.last().0,
            entries.last().1,
            world.rates_of(entries.last().0.0 as int),
            r,
        )
    }
}

pub open spec fn total(parts: Seq<(RecipeId, int)>) -> int
    decreases parts.len(),
{
    if parts.len() == 0 {
        0
    } else {
        total(parts.drop_last()) + parts.last().1
    }
}

/// The net flow of resource `r` under the entries.
pub open spec fn net_flow(world: &World, entries: Seq<(RecipeId, i64)>, r: nat) -> int {
    total(contributions(world, entries, r))
}

/// The report of the entries: for each resource of the world, in order, its net
/// flow and its parts.
pub open spec fn report(world: &World, entries: Seq<(RecipeId, i64)>) -> Report {
    Seq::new(
        world.n_resources(),
        |r: int| (net_flow(world, entries, r as nat), contributions(world, entries, r as nat)),
    )
}

/// The entries taken from an assignment of the program's variables: recipe `i`
/// with the value of its throughput variable, for each of the first `n` recipes
/// whose value is positive.
pub open spec fn extracted(values: Seq<i64>, n_resources: nat, n: nat) -> Seq<(RecipeId, i64)>
    decreases n,
{
    if n == 0 {
        Seq::empty()
    } else if values[n_resources + n - 1] > 0 {
        extracted(values, n_resources, (n - 1) as nat).push(
            (RecipeId((n - 1) as usize), values[n_resources + n - 1]),
        )
    } else {
        extracted(values, n_resources, (n - 1) as nat)
    }
}

/// Recipe ids below `n_recipes` in strictly increasing order, each with a
/// positive throughput.
pub open spec fn is_plan(entries: Seq<(RecipeId, i64)>, n_recipes: nat) -> bool {
    &&& forall|k: int| 0 <= k < entries.len() ==> {
        &&& (#[trigger] entries[k]).0.0 < n_recipes
        &&& entries[k].1 > 0
    }
    &&& forall|a: int, b: int| 0 <= a < b < entries.len() ==> (#[trigger] entries[a]).0.0 < (#[trigger] entries[b]).0.0
}

proof fn lemma_product_bound(a: i64, b: i64)
    requires
        -THROUGHPUT_LIMIT <= a <= THROUGHPUT_LIMIT,
        rate_in_range(b),
    ensures
        -1_000_000_000_000_000_000_000_000_000 <= a * b <= 1_000_000_000_000_000_000_000_000_000,
{
    assert(-1_000_000_000_000_000_000_000_000_000 <= a * b <= 1_000_000_000_000_000_000_000_000_000) by (nonlinear_arith)
        requires
            -1_000_000_000_000_000 <= a <= 1_000_000_000_000_000,
            -1_000_000_000_000 <= b <= 1_000_000_000_000,
    ;
}

impl Factory {
    /// Every entry names a recipe of the world.
    pub open spec fn refers_to(&self, world: &World) -> bool {
        forall|k: int| 0 <= k < self.recipes@.len() ==> (#[trigger] self.recipes@[k]).0.0 < world.n_recipes()
    }

    /// The sizes within which a report is computed exactly.
    pub open spec fn within_limits(&self, world: &World) -> bool {
        &&& self.recipes@.len() <= ENTRY_LIMIT
        &&& forall|k: int| 0 <= k < self.recipes@.len() ==> {
            &&& -THROUGHPUT_LIMIT <= (#[trigger] self.recipes@[k]).1 <= THROUGHPUT_LIMIT
            &&& world.rates_of(self.recipes@[k].0.0 as int).len() <= RECIPE_RATE_LIMIT
        }
    }

    /// Whether this factory names recipes of the world and lies within the limits
    /// of a report.
    pub fn is_reportable(&self, world: &World) -> (r: bool)
        ensures
            r == (self.refers_to(world) && self.within_limits(world)),
    {
        if self.recipes.len() > ENTRY_LIMIT {
            return false;
        }
        let mut k: usize = 0;
        while k < self.recipes.len()
            invariant
                self.recipes@.len() <= ENTRY_LIMIT,
                k <= self.recipes@.len(),
                forall|m: int| 0 <= m < k ==> {
                    &&& (#[trigger] self.recipes@[m]).0.0 < world.n_recipes()
                    &&& -THROUGHPUT_LIMIT <= self.recipes@[m].1 <= THROUGHPUT_LIMIT
                    &&& world.rates_of(self.recipes@[m].0.0 as int).len() <= RECIPE_RATE_LIMIT
                },
            decreases self.recipes@.len() - k,
        {
            let (id, rate) = self.recipes[k];
            if id.0 >= world.recipes.len() {
                return false;
            }
            if rate < -THROUGHPUT_LIMIT || rate > THROUGHPUT_LIMIT {
                return false;
            }
            if world.recipes[id.0].rates.len() > RECIPE_RATE_LIMIT {
                return false;
            }
            k = k + 1;
        }
        true
    }

    /// The factory of an optimal assignment (values in millionths, resources
    /// first): each recipe whose throughput value is positive, in catalog order.
    /// Rounding to millionths is the solver's side; a value that rounds to zero or
    /// below is left out.
    pub fn from_solution(world: &World, values: &Vec<i64>) -> (r: Factory)
        requires
            values@.len() == world.n_variables(),
        ensures
            r.recipes@ == extracted(values@, world.n_resources(), world.n_recipes()),
            is_plan(r.recipes@, world.n_recipes()),
    {
        let n_resources = world.resources.len();
        let n_values = values.len();
        let mut recipes: Vec<(RecipeId, i64)> = Vec::new();
        let mut i: usize = 0;
        while i < world.recipes.len()
            invariant
                values@.len() == world.n_variables(),
                n_values == values@.len(),
                n_resources == world.n_resources(),
                i <= world.n_recipes(),
                recipes@ == extracted(values@, world.n_resources(), i as nat),
                forall|k: int| 0 <= k < recipes@.len() ==> {
                    &&& (#[trigger] recipes@[k]).0.0 < i
                    &&& recipes@[k].1 > 0
                },
                forall|a: int, b: int| 0 <= a < b < recipes@.len() ==> (#[trigger] recipes@[a]).0.0 < (#[trigger] recipes@[b]).0.0,
            decreases world.n_recipes() - i,
        {
            let value = values[n_resources + i];
            if value > 0 {
                recipes.push((RecipeId(i), value));
            }
            i = i + 1;
        }
        Factory { recipes }
    }

    /// For each resource of the world, in order: the sum of throughput times rate
    /// over every rate that names it, and each such product with its recipe, in the
    /// order of the entries and of each recipe's rates.
    pub fn net_resources(&self, world: &World) -> (r: NetResources)
        requires
            world.wf(),
            self.refers_to(world),
            self.within_limits(world),
        ensures
            r@ == report(world, self.recipes@),
    {
        let mut resources: Vec<(i128, Vec<(RecipeId, i128)>)> = Vec::new();
        let mut r: usize = 0;
        while r < world.resources.len()
            invariant
                world.wf(),
                self.refers_to(world),
                self.within_limits(world),
                r <= world.n_resources(),
                report_of(resources@) =~= report(world, self.recipes@).take(r as int),
            decreases world.n_resources() - r,
        {
            let entry = self.resource_entry(world, r);
            let ghost before = report_of(resources@);
            resources.push(entry);
            assert(report_of(resources@) =~= before.push(report(world, self.recipes@)[r as int]));
            r = r + 1;
        }
        let result = NetResources { resources };
        assert(result@ =~= report(world, self.recipes@));
        result
    }

    fn resource_entry(&self, world: &World, r: usize) -> (e: (i128, Vec<(RecipeId, i128)>))
        requires
            world.wf(),
            self.refers_to(world),
            self.within_limits(world),
        ensures
            e.0 == net_flow(world, self.recipes@, r as nat),
            e.1@.map_values(|p: (RecipeId, i128)| (p.0, p.1 as int)) == contributions(world, self.recipes@, r as nat),
    {
        let ghost limit: int = 1_000_000_000_000_000_000_000_000_000;
        let mut net: i128 = 0;
        let mut parts: Vec<(RecipeId, i128)> = Vec::new();
        let mut k: usize = 0;
        while k < self.recipes.len()
            invariant
                world.wf(),
                self.refers_to(world),
                self.within_limits(world),
                k <= self.recipes@.len(),
                limit == 1_000_000_000_000_000_000_000_000_000,
                parts@.map_values(|p: (RecipeId, i128)| (p.0, p.1 as int)) == contributions(world, self.recipes@.take(k as int), r as nat),
                net == total(contributions(world, self.recipes@.take(k as int), r as nat)),
                parts@.len() <= k * RECIPE_RATE_LIMIT,
                -(parts@.len() * limit) <= net <= parts@.len() * limit,
            decreases self.recipes@.len() - k,
        {
            let (id, throughput) = self.recipes[k];
            let rates = &world.recipes[id.0].rates;
            let ghost start = parts@.map_values(|p: (RecipeId, i128)| (p.0, p.1 as int));
            let ghost start_len = parts@.len();
            proof {
                recipe_wf_at(world, id.0 as int);
            }
            let mut j: usize = 0;
            while j < rates.len()
                invariant
                    world.wf(),
                    self.within_limits(world),
                    k < self.recipes@.len(),
                    self.recipes@[k as int] == (id, throughput),
                    id.0 < world.n_recipes(),
                    rates@ == world.rates_of(id.0 as int),
                    rates@.len() <= RECIPE_RATE_LIMIT,
                    -THROUGHPUT_LIMIT <= throughput <= THROUGHPUT_LIMIT,
                    forall|m: int| 0 <= m < rates@.len() ==> rate_in_range((#[trigger] rates@[m]).1),
                    j <= rates@.len(),
                    limit == 1_000_000_000_000_000_000_000_000_000,
                    start_len <= k * RECIPE_RATE_LIMIT,
                    parts@.map_values(|p: (RecipeId, i128)| (p.0, p.1 as int)) == start + entry_contributions(
                        id,
                        throughput,
                        rates@.take(j as int),
                        r as nat,
                    ),
                    net == total(start + entry_contributions(id, throughput, rates@.take(j as int), r as nat)),
                    parts@.len() <= start_len + j,
                    -(parts@.len() * limit) <= net <= parts@.len() * limit,
                decreases rates@.len() - j,
            {
                let (resource, rate) = rates[j];
                let ghost seen = start + entry_contributions(id, throughput, rates@.take(j as int), r as nat);
                assert(rates@.take(j + 1).drop_last() =~= rates@.take(j as int));
                if resource.0 == r {
                    proof {
                        lemma_product_bound(throughput, rate);
                    }
                    let part = (throughput as i128) * (rate as i128);
                    let ghost old_parts = parts@;
                    net = net + part;
                    parts.push((id, part));
                    assert(parts@.map_values(|p: (RecipeId, i128)| (p.0, p.1 as int)) =~= old_parts.map_values(
                        |p: (RecipeId, i128)| (p.0, p.1 as int),
                    ).push((id, part as int)));
                    assert(seen.push((id, throughput * rate)).drop_last() =~= seen);
                    assert(start + entry_contributions(id, throughput, rates@.take(j + 1), r as nat) =~= seen.push(
                        (id, throughput * rate),
                    ));
                }
                j = j + 1;
            }
            assert(rates@.take(j as int) =~= rates@);
            assert(self.recipes@.take(k + 1).drop_last() =~= self.recipes@.take(k as int));
            assert(self.recipes@.take(k + 1).last() == (id, throughput));
            k = k + 1;
        }
        assert(self.recipes@.take(k as int) =~= self.recipes@);
        (net, parts)
    }
}

/// A factory as a file gives it: recipe names and throughputs in millionths.
pub struct FactoryJson {
    pub recipes: Vec<(String, i64)>,
}

#[derive(Debug)]
pub enum LoadFactoryError {
    BadRecipeName { recipe_name: String },
}

/// Resolves a factory file's recipe names to the first recipe of each name,
/// keeping the entries' order and throughputs. Fails on the first name that no
/// recipe has.
pub fn load_factory(world: &World, factory_json: &FactoryJson) -> (r: Result<Factory, LoadFactoryError>)
    ensures
        r is Ok <==> forall|k: int|
            0 <= k < factory_json.recipes@.len() ==> first_index_of(
                world.recipe_names(),
                (#[trigger] factory_json.recipes@[k]).0@,
            ) is Some,
        r matches Ok(factory) ==> {
            &&& factory.recipes@.len() == factory_json.recipes@.len()
            &&& forall|k: int|
                0 <= k < factory.recipes@.len() ==> #[trigger] factory.recipes@[k] == (
                    RecipeId(first_index_of(world.recipe_names(), factory_json.recipes@[k].0@)->Some_0 as usize),
                    factory_json.recipes@[k].1,
                )
        },
        r matches Err(LoadFactoryError::BadRecipeName { recipe_name }) ==> exists|k: int|
            0 <= k < factory_json.recipes@.len() && (#[trigger] factory_json.recipes@[k]).0@ == recipe_name@
                && first_index_of(world.recipe_names(), recipe_name@) is None && forall|m: int|
                0 <= m < k ==> first_index_of(world.recipe_names(), (#[trigger] factory_json.recipes@[m]).0@) is Some,
{
    let mut recipes: Vec<(RecipeId, i64)> = Vec::new();
    let mut k: usize = 0;
    while k < factory_json.recipes.len()
        invariant
            k <= factory_json.recipes@.len(),
            recipes@.len() == k,
            forall|m: int| 0 <= m < k ==> first_index_of(world.recipe_names(), (#[trigger] factory_json.recipes@[m]).0@) is Some,
            forall|m: int|
                0 <= m < k ==> #[trigger] recipes@[m] == (
                    RecipeId(first_index_of(world.recipe_names(), factory_json.recipes@[m].0@)->Some_0 as usize),
                    factory_json.recipes@[m].1,
                ),
        decreases factory_json.recipes@.len() - k,
    {
        let (recipe_name, rate) = &factory_json.recipes[k];
        match world.recipe_id_of_name(recipe_name.as_str()) {
            Some(id) => {
                recipes.push((id, *rate));
            },
            None => {
                assert(factory_json.recipes@[k as int].0@ == recipe_name@);
                return Err(LoadFactoryError::BadRecipeName { recipe_name: recipe_name.clone() });
            },
        }
        k = k + 1;
    }
    Ok(Factory { recipes })
}

/// The file form of a factory: each entry's recipe name and throughput, in order.
pub fn save_factory(world: &World, factory: &Factory) -> (r: FactoryJson)
    requires
        factory.refers_to(world),
    ensures
        r.recipes@.len() == factory.recipes@.len(),
        forall|k: int|
            0 <= k < r.recipes@.len() ==> {
                &&& (#[trigger] r.recipes@[k]).0@ == world.recipes@[factory.recipes@[k].0.0 as int].name@
                &&& r.recipes@[k].1 == factory.recipes@[k].1
            },
{
    let mut recipes: Vec<(String, i64)> = Vec::new();
    let mut k: usize = 0;
    while k < factory.recipes.len()
        invariant
            factory.refers_to(world),
            k <= factory.recipes@.len(),
            recipes@.len() == k,
            forall|m: int|
                0 <= m < k ==> {
                    &&& (#[trigger] recipes@[m]).0@ == world.recipes@[factory.recipes@[m].0.0 as int].name@
                    &&& recipes@[m].1 == factory.recipes@[m].1
                },
        decreases factory.recipes@.len() - k,
    {
        let (recipe, rate) = factory.recipes[k];
        recipes.push((String::from_str(world.name_of_recipe(recipe)), rate));
        k = k + 1;
    }
    FactoryJson { recipes }
}

proof fn recipe_wf_at(world: &World, i: int)
    requires
        world.wf(),
        0 <= i < world.n_recipes(),
    ensures
        forall|m: int| 0 <= m < world.rates_of(i).len() ==> rate_in_range((#[trigger] world.rates_of(i)[m]).1),
{
    assert(crate::world::recipe_wf(world.recipes@[i], world.n_resources()));
    assert forall|m: int| 0 <= m < world.rates_of(i).len() implies rate_in_range((#[trigger] world.rates_of(i)[m]).1) by {
        assert(world.recipes@[i].rates@[m] == world.rates_of(i)[m]);
    }
}

} // verus!
