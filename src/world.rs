use vstd::prelude::*;
use vstd::string::*;

verus! {

/// Largest magnitude of a recipe rate, in millionths of a unit per unit of throughput.
pub const RATE_LIMIT: i64 = 1_000_000_000_000;

/// A resource id within a world.
#[derive(Clone, Copy, Debug, PartialEq, Eq, Structural)]
pub struct ResourceId(pub usize);

/// A recipe id within a world.
#[derive(Clone, Copy, Debug, PartialEq, Eq, Structural)]
pub struct RecipeId(pub usize);

/// An id that is either a resource or a recipe.
#[derive(Clone, Copy, Debug, PartialEq, Eq, Structural)]
pub enum VariableId {
    Resource(ResourceId),
    Recipe(RecipeId),
}

pub struct Resource {
    pub name: String,
}

/// A recipe: its rates are signed, positive when produced and negative when
/// consumed, in millionths of a unit per unit of throughput.
pub struct Recipe {
    pub name: String,
    pub tags: Vec<String>,
    pub rates: Vec<(ResourceId, i64)>,
}

/// The catalog of resources and recipes.
pub struct World {
    pub resources: Vec<Resource>,
    pub recipes: Vec<Recipe>,
}

impl ResourceId {
    pub fn variable_id(self) -> (r: VariableId)
        ensures
            r == VariableId::Resource(self),
    {
        VariableId::Resource(self)
    }
}

impl RecipeId {
    pub fn variable_id(self) -> (r: VariableId)
        ensures
            r == VariableId::Recipe(self),
    {
        VariableId::Recipe(self)
    }
}

pub open spec fn rate_in_range(rate: i64) -> bool {
    -RATE_LIMIT <= rate <= RATE_LIMIT
}

/// A recipe whose rates all name resources of a world with `n_resources`
/// resources and stay within the rate limit.
pub open spec fn recipe_wf(recipe: Recipe, n_resources: nat) -> bool {
    forall|j: int|
        0 <= j < recipe.rates@.len() ==> {
            &&& (#[trigger] recipe.rates@[j]).0.0 < n_resources
            &&& rate_in_range(recipe.rates@[j].1)
        }
}

/// Index of the first element of `names` equal to `name`, if any.
pub open spec fn first_index_of(names: Seq<Seq<char>>, name: Seq<char>) -> Option<nat>
    decreases names.len(),
{
    if names.len() == 0 {
        None
    } else if names[0] == name {
        Some(0)
    } else {
        match first_index_of(names.drop_first(), name) {
            Some(i) => Some(i + 1),
            None => None,
        }
    }
}

/// `o` with `d` added to the index it holds.
pub open spec fn shifted(o: Option<nat>, d: nat) -> Option<nat> {
    match o {
        Some(k) => Some(k + d),
        None => None,
    }
}

/// Relies on std's `PartialEq` for `str`: two string slices are equal exactly
/// when they hold the same characters.
pub assume_specification[ <str as PartialEq>::eq ](s: &str, other: &str) -> (r: bool)
    ensures
        r == (s@ == other@),
;

/// Whether two string slices hold the same characters.
pub fn str_eq(a: &str, b: &str) -> (r: bool)
    ensures
        r == (a@ == b@),
{
    <str as PartialEq>::eq(a, b)
}

impl World {
    pub open spec fn n_resources(&self) -> nat {
        self.resources@.len()
    }

    pub open spec fn n_recipes(&self) -> nat {
        self.recipes@.len()
    }

    pub open spec fn n_variables(&self) -> nat {
        self.n_resources() + self.n_recipes()
    }

    pub open spec fn resource_names(&self) -> Seq<Seq<char>> {
        self.resources@.map_values(|r: Resource| r.name@)
    }

    pub open spec fn recipe_names(&self) -> Seq<Seq<char>> {
        self.recipes@.map_values(|r: Recipe| r.name@)
    }

    /// Recipe `i`'s rates, as a sequence.
    pub open spec fn rates_of(&self, i: int) -> Seq<(ResourceId, i64)> {
        self.recipes@[i].rates@
    }

    /// Every rate names an existing resource, and the variables can be numbered
    /// by `usize`.
    pub open spec fn wf(&self) -> bool {
        &&& self.n_variables() <= usize::MAX
        &&& forall|i: int|
            0 <= i < self.recipes@.len() ==> recipe_wf(#[trigger] self.recipes@[i], self.n_resources())
    }

    pub open spec fn valid_variable(&self, v: VariableId) -> bool {
        match v {
            VariableId::Resource(r) => r.0 < self.n_resources(),
            VariableId::Recipe(r) => r.0 < self.n_recipes(),
        }
    }

    /// The first resource with the given name, if any.
    pub fn resource_id_of_name(&self, resource_name: &str) -> (r: Option<ResourceId>)
        ensures
            r == (match first_index_of(self.resource_names(), resource_name@) {
                Some(i) => Some(ResourceId(i as usize)),
                None => None,
            }),
    {
        let mut i: usize = 0;
        assert(self.resource_names().skip(0) =~= self.resource_names());
        while i < self.resources.len()
            invariant
                i <= self.resources@.len(),
                first_index_of(self.resource_names(), resource_name@) == shifted(first_index_of(
                    self.resource_names().skip(i as int),
                    resource_name@,
                ), i as nat),
            decreases self.resources@.len() - i,
        {
            let ghost names = self.resource_names().skip(i as int);
            assert(names.drop_first() =~= self.resource_names().skip(i + 1));
            if str_eq(self.resources[i].name.as_str(), resource_name) {
                return Some(ResourceId(i));
            }
            i = i + 1;
        }
        assert(self.resource_names().skip(i as int).len() == 0);
        None
    }

    /// The first recipe with the given name, if any.
    pub fn recipe_id_of_name(&self, recipe_name: &str) -> (r: Option<RecipeId>)
        ensures
            r == (match first_index_of(self.recipe_names(), recipe_name@) {
                Some(i) => Some(RecipeId(i as usize)),
                None => None,
            }),
    {
        let mut i: usize = 0;
        assert(self.recipe_names().skip(0) =~= self.recipe_names());
        while i < self.recipes.len()
            invariant
                i <= self.recipes@.len(),
                first_index_of(self.recipe_names(), recipe_name@) == shifted(first_index_of(
                    self.recipe_names().skip(i as int),
                    recipe_name@,
                ), i as nat),
            decreases self.recipes@.len() - i,
        {
            let ghost names = self.recipe_names().skip(i as int);
            assert(names.drop_first() =~= self.recipe_names().skip(i + 1));
            if str_eq(self.recipes[i].name.as_str(), recipe_name) {
                return Some(RecipeId(i));
            }
            i = i + 1;
        }
        assert(self.recipe_names().skip(i as int).len() == 0);
        None
    }

    pub fn name_of_resource(&self, resource: ResourceId) -> (r: &str)
        requires
            resource.0 < self.n_resources(),
        ensures
            r@ == self.resources@[resource.0 as int].name@,
    {
        self.resources[resource.0].name.as_str()
    }

    pub fn name_of_recipe(&self, recipe: RecipeId) -> (r: &str)
        requires
            recipe.0 < self.n_recipes(),
        ensures
            r@ == self.recipes@[recipe.0 as int].name@,
    {
        self.recipes[recipe.0].name.as_str()
    }

    /// "Resource <name>" or "Recipe <name>".
    pub fn name_of_variable(&self, variable: VariableId) -> (r: String)
        requires
            self.valid_variable(variable),
        ensures
            r@ == (match variable {
                VariableId::Resource(id) => "Resource "@ + self.resources@[id.0 as int].name@,
                VariableId::Recipe(id) => "Recipe "@ + self.recipes@[id.0 as int].name@,
            }),
    {
        match variable {
            VariableId::Resource(resource) => {
                let mut s = String::from_str("Resource ");
                s.append(self.name_of_resource(resource));
                s
            },
            VariableId::Recipe(recipe) => {
                let mut s = String::from_str("Recipe ");
                s.append(self.name_of_recipe(recipe));
                s
            },
        }
    }
}

#[derive(Clone, Copy, Debug, PartialEq, Eq, Structural)]
pub enum BuildWorldError {
    /// Rate `rate` of recipe `recipe` names no resource of the catalog.
    UnknownResource { recipe: usize, rate: usize },
    /// Rate `rate` of recipe `recipe` lies beyond the rate limit.
    RateOutOfRange { recipe: usize, rate: usize },
    /// The resources and recipes together cannot be numbered by `usize`.
    TooManyItems,
}

/// Whether every recipe before `recipe`, and every rate of `recipe` before
/// `rate`, names one of `n_resources` resources and lies within the rate limit.
pub open spec fn first_failure(n_resources: nat, recipes: Seq<Recipe>, recipe: int, rate: int) -> bool {
    &&& forall|k: int| 0 <= k < recipe ==> recipe_wf(#[trigger] recipes[k], n_resources)
    &&& forall|m: int|
        0 <= m < rate ==> {
            &&& (#[trigger] recipes[recipe].rates@[m]).0.0 < n_resources
            &&& rate_in_range(recipes[recipe].rates@[m].1)
        }
}

impl World {
    /// Builds a catalog from resources and recipes whose rates already name
    /// resources by id. Fails on the first rate, by recipe and then by rate, that
    /// names no resource or lies beyond the rate limit.
    pub fn build(resources: Vec<Resource>, recipes: Vec<Recipe>) -> (r: Result<World, BuildWorldError>)
        ensures
            r is Ok <==> (World { resources, recipes }).wf(),
            r matches Ok(world) ==> world == (World { resources, recipes }),
            r matches Err(BuildWorldError::TooManyItems) <==> resources@.len() + recipes@.len() > usize::MAX,
            r matches Err(BuildWorldError::UnknownResource { recipe, rate }) ==> {
                &&& first_failure(resources@.len(), recipes@, recipe as int, rate as int)
                &&& recipe < recipes@.len()
                &&& rate < recipes@[recipe as int].rates@.len()
                &&& recipes@[recipe as int].rates@[rate as int].0.0 >= resources@.len()
            },
            r matches Err(BuildWorldError::RateOutOfRange { recipe, rate }) ==> {
                &&& first_failure(resources@.len(), recipes@, recipe as int, rate as int)
                &&& recipe < recipes@.len()
                &&& rate < recipes@[recipe as int].rates@.len()
                &&& recipes@[recipe as int].rates@[rate as int].0.0 < resources@.len()
                &&& !rate_in_range(recipes@[recipe as int].rates@[rate as int].1)
            },
    {
        if resources.len() > usize::MAX - recipes.len() {
            return Err(BuildWorldError::TooManyItems);
        }
        let mut i: usize = 0;
        while i < recipes.len()
            invariant
                i <= recipes@.len(),
                resources@.len() + recipes@.len() <= usize::MAX,
                forall|k: int| 0 <= k < i ==> recipe_wf(#[trigger] recipes@[k], resources@.len()),
            decreases recipes@.len() - i,
        {
            let rates = &recipes[i].rates;
            let mut j: usize = 0;
            while j < rates.len()
                invariant
                    i < recipes@.len(),
                    resources@.len() + recipes@.len() <= usize::MAX,
                    forall|k: int| 0 <= k < i ==> recipe_wf(#[trigger] recipes@[k], resources@.len()),
                    rates@ == recipes@[i as int].rates@,
                    j <= rates@.len(),
                    forall|m: int|
                        0 <= m < j ==> {
                            &&& (#[trigger] rates@[m]).0.0 < resources@.len()
                            &&& rate_in_range(rates@[m].1)
                        },
                decreases rates@.len() - j,
            {
                let (resource, rate) = rates[j];
                assert(first_failure(resources@.len(), recipes@, i as int, j as int)) by {
                    assert forall|m: int| 0 <= m < j implies {
                        &&& (#[trigger] recipes@[i as int].rates@[m]).0.0 < resources@.len()
                        &&& rate_in_range(recipes@[i as int].rates@[m].1)
                    } by {
                        assert(rates@[m] == recipes@[i as int].rates@[m]);
                    }
                }
                if resource.0 >= resources.len() {
                    proof {
                        assert(!recipe_wf(recipes@[i as int], resources@.len()));
                    }
                    return Err(BuildWorldError::UnknownResource { recipe: i, rate: j });
                }
                if rate < -RATE_LIMIT || rate > RATE_LIMIT {
                    proof {
                        assert(!recipe_wf(recipes@[i as int], resources@.len()));
                    }
                    return Err(BuildWorldError::RateOutOfRange { recipe: i, rate: j });
                }
                j = j + 1;
            }
            i = i + 1;
        }
        Ok(World { resources, recipes })
    }
}

/// Every tag of the recipes, recipe by recipe and in each recipe's order.
pub open spec fn all_tags(recipes: Seq<Recipe>) -> Seq<Seq<char>>
    decreases recipes.len(),
{
    if recipes.len() == 0 {
        Seq::empty()
    } else {
        all_tags(recipes.drop_last()) + names_of(recipes.last().tags@)
    }
}

/// The first occurrence of each distinct element, in order.
pub open spec fn distinct(s: Seq<Seq<char>>) -> Seq<Seq<char>>
    decreases s.len(),
{
    if s.len() == 0 {
        Seq::empty()
    } else if distinct(s.drop_last()).contains(s.last()) {
        distinct(s.drop_last())
    } else {
        distinct(s.drop_last()).push(s.last())
    }
}

/// The recipes whose flag is set, in order.
pub open spec fn kept(recipes: Seq<Recipe>, included: Seq<bool>) -> Seq<Recipe>
    decreases recipes.len(),
{
    if recipes.len() == 0 {
        Seq::empty()
    } else if included[recipes.len() - 1] {
        kept(recipes.drop_last(), included).push(recipes.last())
    } else {
        kept(recipes.drop_last(), included)
    }
}

fn contains_name(names: &Vec<String>, name: &String) -> (r: bool)
    ensures
        r == names_of(names@).contains(name@),
{
    let mut k: usize = 0;
    while k < names.len()
        invariant
            k <= names@.len(),
            forall|m: int| 0 <= m < k ==> (#[trigger] names@[m])@ != name@,
        decreases names@.len() - k,
    {
        if str_eq(names[k].as_str(), name.as_str()) {
            assert(names_of(names@)[k as int] == name@);
            return true;
        }
        k = k + 1;
    }
    assert forall|m: int| 0 <= m < names_of(names@).len() implies names_of(names@)[m] != name@ by {
        assert(names_of(names@)[m] == names@[m]@);
    }
    false
}

impl World {
    /// The distinct tags of the recipes, in order of first appearance.
    pub fn tags(&self) -> (r: Vec<String>)
        ensures
            names_of(r@) == distinct(all_tags(self.recipes@)),
    {
        let mut tags: Vec<String> = Vec::new();
        let mut i: usize = 0;
        while i < self.recipes.len()
            invariant
                i <= self.recipes@.len(),
                names_of(tags@) == distinct(all_tags(self.recipes@.take(i as int))),
            decreases self.recipes@.len() - i,
        {
            let recipe_tags = &self.recipes[i].tags;
            let ghost before = all_tags(self.recipes@.take(i as int));
            assert(self.recipes@.take(i + 1).drop_last() =~= self.recipes@.take(i as int));
            let mut j: usize = 0;
            while j < recipe_tags.len()
                invariant
                    i < self.recipes@.len(),
                    recipe_tags@ == self.recipes@[i as int].tags@,
                    j <= recipe_tags@.len(),
                    names_of(tags@) == distinct(before + names_of(recipe_tags@.take(j as int))),
                decreases recipe_tags@.len() - j,
            {
                let tag = &recipe_tags[j];
                let ghost seen = before + names_of(recipe_tags@.take(j as int));
                let ghost next = before + names_of(recipe_tags@.take(j + 1));
                assert(next.drop_last() =~= seen);
                assert(next.last() == tag@);
                if !contains_name(&tags, tag) {
                    let ghost old_tags = tags@;
                    tags.push(tag.clone());
                    assert(names_of(tags@) =~= names_of(old_tags).push(tag@));
                }
                j = j + 1;
            }
            assert(recipe_tags@.take(j as int) =~= recipe_tags@);
            i = i + 1;
        }
        assert(self.recipes@.take(i as int) =~= self.recipes@);
        tags
    }

    /// The catalog with only the recipes whose flag is set, in order; the
    /// resources stay as they are.
    pub fn filter_recipes(self, included: &Vec<bool>) -> (r: World)
        requires
            included@.len() == self.recipes@.len(),
        ensures
            r.resources == self.resources,
            r.recipes@ == kept(self.recipes@, included@),
            self.wf() ==> r.wf(),
    {
        let ghost original = self.recipes@;
        let ghost n_resources = self.n_resources();
        let ghost was_wf = self.wf();
        let World { resources, recipes } = self;
        let mut rest = recipes;
        let mut chosen: Vec<Recipe> = Vec::new();
        let mut k: usize = 0;
        while k < included.len()
            invariant
                included@.len() == original.len(),
                k <= original.len(),
                rest@ == original.skip(k as int),
                chosen@ == kept(original.take(k as int), included@),
                chosen@.len() <= k,
                was_wf ==> forall|m: int| 0 <= m < original.len() ==> recipe_wf(#[trigger] original[m], n_resources),
                was_wf ==> forall|m: int| 0 <= m < chosen@.len() ==> recipe_wf(#[trigger] chosen@[m], n_resources),
            decreases original.len() - k,
        {
            assert(rest@.len() > 0);
            let recipe = rest.remove(0);
            assert(recipe == original[k as int]);
            assert(rest@ =~= original.skip(k + 1));
            assert(original.take(k + 1).drop_last() =~= original.take(k as int));
            if included[k] {
                chosen.push(recipe);
            }
            k = k + 1;
        }
        assert(original.take(k as int) =~= original);
        World { resources, recipes: chosen }
    }
}

/// A recipe as a catalog file gives it: rates name their resources and are
/// already scaled to the catalog's time unit, in millionths.
pub struct RecipeJson {
    pub name: String,
    pub tags: Vec<String>,
    pub rates: Vec<(String, i64)>,
}

/// A catalog as a file gives it: resource names in order, and recipes.
pub struct WorldJson {
    pub resources: Vec<String>,
    pub recipes: Vec<RecipeJson>,
}

#[derive(Debug)]
pub enum LoadWorldError {
    /// The name of a resource in a recipe did not appear in the list of resources.
    BadRecipeResource { recipe_name: String, resource_name: String },
    /// A rate lies beyond the rate limit.
    RateOutOfRange { recipe_name: String, resource_name: String },
    /// The resources and recipes together cannot be numbered by `usize`.
    TooManyItems,
}

/// The characters of each string.
pub open spec fn names_of(strings: Seq<String>) -> Seq<Seq<char>> {
    strings.map_values(|n: String| n@)
}

/// Whether rate `j` of a recipe names a listed resource and lies within the limit.
pub open spec fn rate_resolves(names: Seq<Seq<char>>, rates: Seq<(String, i64)>, j: int) -> bool {
    &&& first_index_of(names, rates[j].0@) is Some
    &&& rate_in_range(rates[j].1)
}

/// Whether the first `j` rates all resolve.
pub open spec fn rates_resolve_before(names: Seq<Seq<char>>, rates: Seq<(String, i64)>, j: int) -> bool {
    forall|m: int| 0 <= m < j ==> #[trigger] rate_resolves(names, rates, m)
}

/// Whether rate `j` is the first that fails, and fails for naming `name`, which
/// no resource has.
pub open spec fn first_unknown_at(names: Seq<Seq<char>>, rates: Seq<(String, i64)>, j: int, name: Seq<char>) -> bool {
    &&& 0 <= j < rates.len()
    &&& rates_resolve_before(names, rates, j)
    &&& rates[j].0@ == name
    &&& first_index_of(names, name) is None
}

/// Whether rate `j` is the first that fails, names the resource `name`, which
/// exists, and lies beyond the rate limit.
pub open spec fn first_out_of_range_at(
    names: Seq<Seq<char>>,
    rates: Seq<(String, i64)>,
    j: int,
    name: Seq<char>,
) -> bool {
    &&& 0 <= j < rates.len()
    &&& rates_resolve_before(names, rates, j)
    &&& rates[j].0@ == name
    &&& first_index_of(names, name) is Some
    &&& !rate_in_range(rates[j].1)
}

/// Whether the first `k` recipes all resolve.
pub open spec fn recipes_resolve_before(names: Seq<Seq<char>>, recipes: Seq<RecipeJson>, k: int) -> bool {
    forall|m: int| 0 <= m < k ==> recipe_resolves(names, #[trigger] recipes[m])
}

pub open spec fn recipe_resolves(names: Seq<Seq<char>>, recipe: RecipeJson) -> bool {
    forall|j: int| 0 <= j < recipe.rates@.len() ==> #[trigger] rate_resolves(names, recipe.rates@, j)
}

/// The recipe of the catalog that a file's recipe stands for.
pub open spec fn recipe_matches(names: Seq<Seq<char>>, recipe: Recipe, json: RecipeJson) -> bool {
    &&& recipe.name@ == json.name@
    &&& recipe.tags@ == json.tags@
    &&& recipe.rates@.len() == json.rates@.len()
    &&& forall|j: int|
        0 <= j < json.rates@.len() ==> #[trigger] recipe.rates@[j] == (
            ResourceId(first_index_of(names, json.rates@[j].0@)->Some_0 as usize),
            json.rates@[j].1,
        )
}

proof fn lemma_first_index_bound(names: Seq<Seq<char>>, name: Seq<char>)
    ensures
        first_index_of(names, name) matches Some(i) ==> i < names.len() && names[i as int] == name,
    decreases names.len(),
{
    if names.len() > 0 && names[0] != name {
        lemma_first_index_bound(names.drop_first(), name);
    }
}

/// Resolves a recipe's resource names against the resources of `world`.
fn load_recipe(world: &World, json: &RecipeJson) -> (r: Result<Recipe, LoadWorldError>)
    ensures
        r is Ok <==> recipe_resolves(world.resource_names(), *json),
        r matches Ok(recipe) ==> recipe_matches(world.resource_names(), recipe, *json) && recipe_wf(
            recipe,
            world.n_resources(),
        ),
        r matches Err(LoadWorldError::BadRecipeResource { recipe_name, resource_name }) ==> recipe_name@ == json.name@
            && exists|j: int| #[trigger] first_unknown_at(world.resource_names(), json.rates@, j, resource_name@),
        r matches Err(LoadWorldError::RateOutOfRange { recipe_name, resource_name }) ==> recipe_name@ == json.name@
            && exists|j: int| #[trigger] first_out_of_range_at(world.resource_names(), json.rates@, j, resource_name@),
        !(r matches Err(LoadWorldError::TooManyItems)),
{
    let ghost names = world.resource_names();
    let mut rates: Vec<(ResourceId, i64)> = Vec::new();
    let mut j: usize = 0;
    while j < json.rates.len()
        invariant
            names == world.resource_names(),
            j <= json.rates@.len(),
            rates@.len() == j,
            forall|m: int| 0 <= m < j ==> #[trigger] rate_resolves(names, json.rates@, m),
            forall|m: int|
                0 <= m < j ==> #[trigger] rates@[m] == (
                    ResourceId(first_index_of(names, json.rates@[m].0@)->Some_0 as usize),
                    json.rates@[m].1,
                ),
            forall|m: int| 0 <= m < j ==> (#[trigger] rates@[m]).0.0 < world.n_resources(),
        decreases json.rates@.len() - j,
    {
        let (resource_name, rate) = &json.rates[j];
        proof {
            lemma_first_index_bound(names, resource_name@);
        }
        let id = match world.resource_id_of_name(resource_name.as_str()) {
            Some(id) => id,
            None => {
                assert(first_index_of(names, json.rates@[j as int].0@) is None);
                assert(!rate_resolves(names, json.rates@, j as int));
                let e = LoadWorldError::BadRecipeResource {
                    recipe_name: json.name.clone(),
                    resource_name: resource_name.clone(),
                };
                assert(e matches LoadWorldError::BadRecipeResource { recipe_name, resource_name: n } && n@
                    == resource_name@ && recipe_name@ == json.name@);
                assert(first_unknown_at(world.resource_names(), json.rates@, j as int, resource_name@));
                return Err(e);
            },
        };
        if *rate < -RATE_LIMIT || *rate > RATE_LIMIT {
            assert(!rate_resolves(names, json.rates@, j as int));
            let e = LoadWorldError::RateOutOfRange {
                recipe_name: json.name.clone(),
                resource_name: resource_name.clone(),
            };
            assert(e matches LoadWorldError::RateOutOfRange { recipe_name, resource_name: n } && n@ == resource_name@
                && recipe_name@ == json.name@);
            assert(first_out_of_range_at(world.resource_names(), json.rates@, j as int, resource_name@));
            return Err(e);
        }
        rates.push((id, *rate));
        assert(rate_resolves(names, json.rates@, j as int));
        j = j + 1;
    }
    let mut tags: Vec<String> = Vec::new();
    let mut t: usize = 0;
    while t < json.tags.len()
        invariant
            t <= json.tags@.len(),
            tags@ == json.tags@.take(t as int),
        decreases json.tags@.len() - t,
    {
        tags.push(json.tags[t].clone());
        assert(json.tags@.take(t + 1) =~= json.tags@.take(t as int).push(json.tags@[t as int]));
        t = t + 1;
    }
    assert(json.tags@.take(t as int) =~= json.tags@);
    let recipe = Recipe { name: json.name.clone(), tags, rates };
    assert(recipe_wf(recipe, world.n_resources())) by {
        assert forall|m: int| 0 <= m < recipe.rates@.len() implies (#[trigger] recipe.rates@[m]).0.0 < world.n_resources()
            && rate_in_range(recipe.rates@[m].1) by {
            assert(rate_resolves(names, json.rates@, m));
        }
    }
    Ok(recipe)
}

/// Builds the catalog that a file describes: its resources in order, and its
/// recipes in order with each rate's resource name resolved to the first
/// resource of that name. Fails on the first rate whose resource is not listed
/// or whose value lies beyond the rate limit.
pub fn load_world(world_json: WorldJson) -> (r: Result<World, LoadWorldError>)
    ensures
        r is Ok <==> (world_json.resources@.len() + world_json.recipes@.len() <= usize::MAX && forall|k: int|
            0 <= k < world_json.recipes@.len() ==> recipe_resolves(
                names_of(world_json.resources@),
                #[trigger] world_json.recipes@[k],
            )),
        r matches Ok(world) ==> {
            &&& world.wf()
            &&& world.resource_names() == names_of(world_json.resources@)
            &&& world.recipes@.len() == world_json.recipes@.len()
            &&& forall|k: int|
                0 <= k < world_json.recipes@.len() ==> recipe_matches(
                    world.resource_names(),
                    #[trigger] world.recipes@[k],
                    world_json.recipes@[k],
                )
        },
        r matches Err(LoadWorldError::TooManyItems) <==> world_json.resources@.len() + world_json.recipes@.len()
            > usize::MAX,
        r matches Err(LoadWorldError::BadRecipeResource { recipe_name, resource_name }) ==> exists|k: int|
            0 <= k < world_json.recipes@.len() && recipes_resolve_before(
                names_of(world_json.resources@),
                world_json.recipes@,
                k,
            ) && (#[trigger] world_json.recipes@[k]).name@ == recipe_name@ && exists|j: int|
                #[trigger] first_unknown_at(
                    names_of(world_json.resources@),
                    world_json.recipes@[k].rates@,
                    j,
                    resource_name@,
                ),
        r matches Err(LoadWorldError::RateOutOfRange { recipe_name, resource_name }) ==> exists|k: int|
            0 <= k < world_json.recipes@.len() && recipes_resolve_before(
                names_of(world_json.resources@),
                world_json.recipes@,
                k,
            ) && (#[trigger] world_json.recipes@[k]).name@ == recipe_name@ && exists|j: int|
                #[trigger] first_out_of_range_at(
                    names_of(world_json.resources@),
                    world_json.recipes@[k].rates@,
                    j,
                    resource_name@,
                ),
{
    let ghost names = names_of(world_json.resources@);
    if world_json.resources.len() > usize::MAX - world_json.recipes.len() {
        return Err(LoadWorldError::TooManyItems);
    }
    let mut world = World { resources: Vec::new(), recipes: Vec::new() };
    let mut i: usize = 0;
    while i < world_json.resources.len()
        invariant
            i <= world_json.resources@.len(),
            world.recipes@.len() == 0,
            world.resources@.len() == i,
            world.resource_names() =~= names.take(i as int),
            names == names_of(world_json.resources@),
        decreases world_json.resources@.len() - i,
    {
        let ghost before = world.resources@;
        let name = world_json.resources[i].clone();
        assert(name@ == names[i as int]);
        world.resources.push(Resource { name });
        assert(world.resources@ == before.push(Resource { name }));
        assert forall|m: int| 0 <= m <= i implies #[trigger] world.resource_names()[m] == names.take(i + 1)[m] by {
            if m < i {
                assert(world.resources@[m] == before[m]);
                assert(names.take(i as int)[m] == names.take(i + 1)[m]);
            }
        }
        assert(world.resource_names() =~= names.take(i + 1));
        i = i + 1;
    }
    assert(names.take(i as int) =~= names);
    let mut k: usize = 0;
    while k < world_json.recipes.len()
        invariant
            k <= world_json.recipes@.len(),
            world_json.resources@.len() + world_json.recipes@.len() <= usize::MAX,
            world.resource_names() == names,
            names == names_of(world_json.resources@),
            world.n_resources() == world_json.resources@.len(),
            world.recipes@.len() == k,
            forall|m: int| 0 <= m < k ==> recipe_resolves(names, #[trigger] world_json.recipes@[m]),
            forall|m: int| 0 <= m < k ==> recipe_matches(names, #[trigger] world.recipes@[m], world_json.recipes@[m]),
            forall|m: int| 0 <= m < k ==> recipe_wf(#[trigger] world.recipes@[m], world.n_resources()),
        decreases world_json.recipes@.len() - k,
    {
        let recipe = match load_recipe(&world, &world_json.recipes[k]) {
            Ok(recipe) => recipe,
            Err(e) => {
                proof {
                    assert(!recipe_resolves(names, world_json.recipes@[k as int]));
                    assert(recipes_resolve_before(names, world_json.recipes@, k as int));
                }
                return Err(e);
            },
        };
        world.recipes.push(recipe);
        k = k + 1;
    }
    Ok(world)
}

} // verus!
