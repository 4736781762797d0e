//! End-to-end planner scenarios over a small synthetic catalog.

use factory_planner::catalog::{
    Catalog, RawAssembler, RawCharacter, RawEnergySource, RawFluid, RawFuel, RawGenerator,
    RawItem, RawLab, RawMinable, RawMiningDrill, RawRecipe, RawRecipeMode, RawResource, RawRock,
    RawTechUnit, RawTechnology,
};
use factory_planner::graph::{EnergyType, Item, RecipeMode};
use factory_planner::qty::{Celsius, Joules, Number, One, Seconds, Watts};
use factory_planner::step::{PlanError, Tasks};
use factory_planner::world::World;

fn n(units: u64) -> Number<One> {
    Number::from_whole(units)
}

fn micro(m: u64) -> Number<One> {
    Number::from_micro(m)
}

fn seconds(units: u64) -> Number<Seconds> {
    Number::from_whole(units)
}

fn burner_source() -> RawEnergySource {
    RawEnergySource {
        fuel_category: Some("chemical".to_string()),
        energy_type: EnergyType::Burner,
        effectivity: None,
    }
}

fn simple_minable(results: &[(&str, u64)], time_micro: u64) -> RawMinable {
    RawMinable {
        mining_time: micro(time_micro),
        results: results
            .iter()
            .map(|(name, amount)| (name.to_string(), n(*amount)))
            .collect(),
        required_fluid: None,
    }
}

fn plain_mode(
    category: &str,
    ingredients: &[(&str, u64)],
    results: &[(&str, u64)],
    energy_micro: u64,
) -> RawRecipeMode {
    RawRecipeMode {
        category: category.to_string(),
        ingredients: ingredients
            .iter()
            .map(|(name, amount)| (name.to_string(), n(*amount)))
            .collect(),
        results: results
            .iter()
            .map(|(name, amount)| (name.to_string(), n(*amount)))
            .collect(),
        result_count: None,
        energy_required: micro(energy_micro),
    }
}

fn recipe(
    name: &str,
    category: &str,
    ingredients: &[(&str, u64)],
    results: &[(&str, u64)],
    energy_micro: u64,
) -> RawRecipe {
    RawRecipe {
        name: name.to_string(),
        normal: plain_mode(category, ingredients, results, energy_micro),
        expensive: plain_mode(category, ingredients, results, energy_micro),
    }
}

fn small_catalog() -> Catalog {
    Catalog {
        rocks: vec![RawRock {
            name: "big-rock".to_string(),
            is_rock: true,
            minable: Some(simple_minable(&[("stone", 1)], 2_000_000)),
        }],
        recipes: vec![
            recipe("iron-plate", "smelting", &[("iron-ore", 1)], &[("iron-plate", 1)], 3_200_000),
            recipe(
                "iron-gear-wheel",
                "advanced-crafting",
                &[("iron-plate", 2)],
                &[("iron-gear-wheel", 1)],
                500_000,
            ),
            recipe(
                "stone-brick",
                "crafting",
                &[],
                &[("stone-brick", 1)],
                2_000_000,
            ),
            recipe(
                "assembling-machine-1",
                "crafting",
                &[("iron-plate", 3)],
                &[("assembling-machine-1", 1)],
                500_000,
            ),
            recipe(
                "science-pack-1",
                "crafting",
                &[("iron-plate", 1)],
                &[("science-pack-1", 1)],
                5_000_000,
            ),
            recipe("copper-plate", "smelting2", &[("copper-ore", 1)], &[("copper-plate", 1)], 1_000_000),
            recipe("loop-a", "crafting", &[("loop-b", 1)], &[("loop-a", 1)], 1_000_000),
            recipe("loop-b", "crafting", &[("loop-a", 1)], &[("loop-b", 1)], 1_000_000),
        ],
        items: vec![
            RawItem {
                name: "coal".to_string(),
                fuel: Some(RawFuel {
                    category: "chemical".to_string(),
                    value: Number::from_whole(8_000_000),
                }),
            },
            RawItem {
                name: "wood".to_string(),
                fuel: Some(RawFuel {
                    category: "chemical".to_string(),
                    value: Number::from_whole(4_000_000),
                }),
            },
            RawItem { name: "iron-ore".to_string(), fuel: None },
        ],
        resources: vec![
            RawResource {
                name: "iron-ore".to_string(),
                category: "basic-solid".to_string(),
                minable: simple_minable(&[("iron-ore", 1)], 1_000_000),
            },
            RawResource {
                name: "coal".to_string(),
                category: "basic-solid".to_string(),
                minable: simple_minable(&[("coal", 1)], 1_000_000),
            },
            RawResource {
                name: "wood".to_string(),
                category: "basic-solid".to_string(),
                minable: simple_minable(&[("wood", 1)], 1_000_000),
            },
        ],
        mining_drills: vec![RawMiningDrill {
            name: "burner-mining-drill".to_string(),
            resource_categories: vec!["basic-solid".to_string()],
            mining_speed: micro(250_000),
            energy_source: burner_source(),
            energy_usage: Number::from_whole(150),
        }],
        labs: vec![RawLab {
            name: "lab".to_string(),
            energy_source: burner_source(),
            energy_usage: Number::from_whole(60),
            researching_speed: n(1),
        }],
        generators: vec![RawGenerator {
            name: "steam-engine".to_string(),
            fluid: "steam".to_string(),
            maximum_temperature: Number::from_whole(165),
            fluid_usage_per_tick: Number::from_micro(500_000),
            effectivity: n(1),
        }],
        fluids: vec![
            RawFluid {
                name: "water".to_string(),
                max_temperature: None,
                default_temperature: Number::from_whole(15),
                heat_capacity: Some(Number::from_micro(200_000_000)),
            },
            RawFluid {
                name: "steam".to_string(),
                max_temperature: Some(Number::from_whole(1_000)),
                default_temperature: Number::from_whole(15),
                heat_capacity: Some(Number::from_micro(200_000_000)),
            },
        ],
        boilers: vec![factory_planner::catalog::RawBoiler {
            name: "boiler".to_string(),
            energy_source: burner_source(),
            energy_consumption: Number::from_whole(1_800_000),
            fluid_in: "water".to_string(),
            fluid_out: "steam".to_string(),
        }],
        assemblers: vec![
            RawAssembler {
                name: "stone-furnace".to_string(),
                crafting_categories: vec!["smelting".to_string()],
                crafting_speed: n(1),
                energy_source: burner_source(),
                energy_usage: Number::from_whole(90),
            },
            RawAssembler {
                name: "assembling-machine-1".to_string(),
                crafting_categories: vec!["advanced-crafting".to_string()],
                crafting_speed: micro(500_000),
                energy_source: burner_source(),
                energy_usage: Number::from_whole(75),
            },
        ],
        character: RawCharacter {
            mining_categories: vec!["basic-solid".to_string()],
            crafting_categories: vec!["crafting".to_string()],
            mining_speed: n(1),
        },
        technologies: vec![
            RawTechnology {
                name: "logistics".to_string(),
                prerequisites: vec![],
                unit: RawTechUnit {
                    count: Some(n(2)),
                    time: seconds(5),
                    ingredients: vec![("science-pack-1".to_string(), n(1))],
                },
                ignore_tech_cost_multiplier: false,
            },
            RawTechnology {
                name: "automation".to_string(),
                prerequisites: vec!["logistics".to_string()],
                unit: RawTechUnit {
                    count: Some(n(2)),
                    time: seconds(5),
                    ingredients: vec![("science-pack-1".to_string(), n(1))],
                },
                ignore_tech_cost_multiplier: false,
            },
            RawTechnology {
                name: "chemistry".to_string(),
                prerequisites: vec![],
                unit: RawTechUnit {
                    count: Some(n(3)),
                    time: seconds(5),
                    ingredients: vec![("science-pack-1".to_string(), n(1))],
                },
                ignore_tech_cost_multiplier: true,
            },
            RawTechnology {
                name: "mystery".to_string(),
                prerequisites: vec![],
                unit: RawTechUnit {
                    count: None,
                    time: seconds(5),
                    ingredients: vec![],
                },
                ignore_tech_cost_multiplier: false,
            },
        ],
    }
}

fn fresh_world() -> World {
    World::new(&small_catalog(), RecipeMode::Normal, n(1)).unwrap()
}

fn crafted(world: &World, recipe_name: &str) -> Number<One> {
    world
        .total_crafts()
        .get(recipe_name)
        .copied()
        .unwrap_or_else(|| n(0))
}

#[test]
fn graph_holds_synthesized_recipes_and_machines() {
    let world = fresh_world();
    let graph = world.graph();
    // Every kind of production activity became a recipe.
    assert!(graph.recipes.contains("iron-plate"));
    assert!(graph.recipes.contains("iron-ore mining"));
    assert!(graph.recipes.contains("pickaxe mine big-rock"));
    assert!(graph.recipes.contains("coal chemical burnable fuel energy"));
    assert!(graph.recipes.contains("wood chemical burnable fuel energy"));
    assert!(graph.recipes.contains("generator steam-engine work"));
    assert!(graph.recipes.contains("boiling in boiler"));
    assert!(graph.recipes.contains("research automation"));
    assert!(graph.recipes.contains("water"));
    // Formula-cost technologies are omitted from the graph entirely.
    assert!(!graph.researches.contains("mystery"));
    assert!(!graph.recipes.contains("research mystery"));
    // Every executor became a machine.
    assert!(graph.machines.contains("burner-mining-drill"));
    assert!(graph.machines.contains("stone-furnace"));
    assert!(graph.machines.contains("lab"));
    assert!(graph.machines.contains("steam-engine"));
    assert!(graph.machines.contains("boiler"));
    assert!(graph.machines.contains("character mining"));
    assert!(graph.machines.contains("character crafting"));
    assert!(graph.machines.contains("free"));
}

#[test]
fn generator_work_recipe_follows_the_game_formula() {
    let world = fresh_world();
    let rec = world.graph().recipes.get("generator steam-engine work").unwrap();
    // (min(165, 1000) - 15) * 0.5 per tick * 200 heat capacity * 1.0
    // = 150 * 0.5 * 200 = 15000 units of electric energy.
    let energy = rec
        .results
        .get(&Item::Energy { fuel_category: None, energy_type: EnergyType::Electric })
        .unwrap();
    assert_eq!(energy, n(15_000));
    // One tick of crafting time: a sixtieth of a second, rounded down.
    assert_eq!(rec.crafting_time.unwrap(), micro(16_666));
}

#[test]
fn craft_iron_plates_end_to_end() {
    let mut world = fresh_world();
    world.prefer_fuel("chemical", Item::tangible("coal"));
    world.place("burner-mining-drill", n(1)).unwrap();
    world.place("stone-furnace", n(1)).unwrap();
    world.craft(Item::tangible("iron-plate"), n(10)).unwrap();
    assert_eq!(crafted(&world, "iron-plate"), n(10));
    assert!(crafted(&world, "iron-ore mining") >= n(10));
    assert!(crafted(&world, "coal chemical burnable fuel energy") > n(0));
    assert!(world.time() > Number::from_whole(0));
    assert!(world.total_machine_time() > Number::from_whole(0));
}

#[test]
fn uncovered_category_fails_and_leaves_world_unchanged() {
    let mut world = fresh_world();
    let time_before = world.time();
    let crafts_before = world.total_crafts().len();
    let err = world.craft(Item::tangible("copper-plate"), n(1));
    assert!(matches!(err, Err(PlanError::NoRecipeFound { .. })));
    assert_eq!(world.time(), time_before);
    assert_eq!(world.total_crafts().len(), crafts_before);
}

#[test]
fn missing_fuel_preference_is_reported() {
    let mut world = fresh_world();
    world.place("burner-mining-drill", n(1)).unwrap();
    world.place("stone-furnace", n(1)).unwrap();
    let err = world.craft(Item::tangible("iron-plate"), n(1));
    assert!(matches!(err, Err(PlanError::NoPreferredFuel { .. })));
}

#[test]
fn free_water_never_advances_the_clock() {
    let mut world = fresh_world();
    world.craft(Item::tangible("water"), n(3)).unwrap();
    assert_eq!(crafted(&world, "water"), n(3));
    assert_eq!(world.time(), Number::from_whole(0));
    assert_eq!(world.total_machine_time(), Number::from_whole(0));
}

#[test]
fn occupancy_sums_into_machine_time_and_max_into_clock() {
    let mut world = fresh_world();
    // Only the character crafts bricks: four firings at two seconds each.
    let mut tasks = Tasks::new();
    tasks.craft_recipe.set("stone-brick", n(4));
    tasks.execute(&mut world).unwrap();
    assert_eq!(world.time(), seconds(8));
    assert_eq!(world.total_machine_time(), seconds(8));
    assert_eq!(crafted(&world, "stone-brick"), n(4));
}

#[test]
fn energy_closure_reaches_its_fixed_point() {
    let mut world = fresh_world();
    world.prefer_fuel("chemical", Item::tangible("coal"));
    world.place("burner-mining-drill", n(1)).unwrap();
    // Ten firings of iron-ore mining: the drill takes a fifth of the speed
    // (0.25 of 1.25), eight single-machine seconds, so it demands
    // 150 W x 8 s = 1200 J; burning coal at 8 MJ yields that with 150
    // micro-firings exactly, and the feedback of mining that sliver of coal
    // stays below one unit per machine, so the closure stops there.
    let mut tasks = Tasks::new();
    tasks.craft_recipe.set("iron-ore mining", n(10));
    tasks.execute(&mut world).unwrap();
    assert_eq!(crafted(&world, "coal chemical burnable fuel energy"), micro(150));
    assert_eq!(crafted(&world, "coal mining"), micro(150));
}

#[test]
fn wood_fuel_resolves_through_the_preference() {
    let mut world = fresh_world();
    world.prefer_fuel("chemical", Item::tangible("wood"));
    world.place("burner-mining-drill", n(1)).unwrap();
    world.place("stone-furnace", n(1)).unwrap();
    world.craft(Item::tangible("iron-plate"), n(1)).unwrap();
    assert!(crafted(&world, "wood chemical burnable fuel energy") > n(0));
    assert!(crafted(&world, "wood mining") > n(0));
    assert_eq!(crafted(&world, "coal chemical burnable fuel energy"), n(0));
}

#[test]
fn research_pulls_prerequisites_once_each() {
    let mut world = fresh_world();
    world.prefer_fuel("chemical", Item::tangible("coal"));
    world.place("burner-mining-drill", n(1)).unwrap();
    world.place("stone-furnace", n(1)).unwrap();
    world.place("lab", n(1)).unwrap();
    world.research("automation").unwrap();
    assert!(world.researched("automation"));
    assert!(world.researched("logistics"));
    assert_eq!(crafted(&world, "research automation"), n(1));
    assert_eq!(crafted(&world, "research logistics"), n(1));
}

#[test]
fn research_is_idempotent() {
    let mut world = fresh_world();
    world.prefer_fuel("chemical", Item::tangible("coal"));
    world.place("burner-mining-drill", n(1)).unwrap();
    world.place("stone-furnace", n(1)).unwrap();
    world.place("lab", n(1)).unwrap();
    world.research("logistics").unwrap();
    let time_after_first = world.time();
    let crafts_after_first = crafted(&world, "research logistics");
    world.research("logistics").unwrap();
    assert_eq!(world.time(), time_after_first);
    assert_eq!(crafted(&world, "research logistics"), crafts_after_first);
}

#[test]
fn unknown_research_is_reported() {
    let mut world = fresh_world();
    let err = world.research("warp-drive");
    assert!(matches!(err, Err(PlanError::UnknownResearch { .. })));
}

#[test]
fn cyclic_recipes_hit_the_depth_bound() {
    let mut world = fresh_world();
    let err = world.craft(Item::tangible("loop-a"), n(1));
    assert!(matches!(err, Err(PlanError::DepthLimit)));
}

#[test]
fn uncovered_named_recipe_is_reported() {
    let mut world = fresh_world();
    world.prefer_fuel("chemical", Item::tangible("coal"));
    // No machine covers smelting: firing the recipe by name still fails.
    let mut tasks = Tasks::new();
    tasks.craft_recipe.set("iron-plate", n(1));
    let err = tasks.execute(&mut world);
    assert!(matches!(err, Err(PlanError::NoMachineForCategory { .. })));
}

#[test]
fn unknown_named_recipe_is_reported() {
    let mut world = fresh_world();
    let mut tasks = Tasks::new();
    tasks.craft_recipe.set("no-such-recipe", n(1));
    let err = tasks.execute(&mut world);
    assert!(matches!(err, Err(PlanError::UnknownRecipe { .. })));
}

#[test]
fn placing_an_unknown_machine_is_refused() {
    let mut world = fresh_world();
    assert!(world.place("nonexistent-machine", n(1)).is_err());
}

#[test]
fn destroy_all_removes_the_machines() {
    let mut world = fresh_world();
    world.place("stone-furnace", n(2)).unwrap();
    assert!(world.machines().contains("stone-furnace"));
    world.destroy_all(&Item::tangible("stone-furnace"));
    assert!(!world.machines().contains("stone-furnace"));
}

#[test]
fn reset_counts_keeps_the_clock_and_machines() {
    let mut world = fresh_world();
    world.craft(Item::tangible("water"), n(1)).unwrap();
    world.place("stone-furnace", n(1)).unwrap();
    world.reset_counts();
    assert_eq!(world.total_crafts().len(), 0);
    assert_eq!(world.total_machine_time(), Number::from_whole(0));
    assert!(world.machines().contains("stone-furnace"));
}

#[test]
fn thinking_never_worsens_the_objective() {
    // The same bundle, verbatim and with the meta-planner: building more
    // assemblers first may reduce the time, never increase the objective.
    let run = |think: bool| -> (Number<One>, Number<Seconds>) {
        let mut world = fresh_world();
        world.prefer_fuel("chemical", Item::tangible("coal"));
        world.place("burner-mining-drill", n(1)).unwrap();
        world.place("stone-furnace", n(1)).unwrap();
        world.place("assembling-machine-1", n(1)).unwrap();
        world.set_no_thinking(!think);
        let mut tasks = Tasks::new();
        tasks.craft.add(Item::tangible("iron-gear-wheel"), n(100));
        let plan = {
            let mut planner = world.planner();
            planner.add_tasks(tasks);
            planner.think().unwrap()
        };
        plan.execute(&mut world).unwrap();
        let minutes = world
            .time()
            .convert::<One>()
            .div(Number::from_whole(60))
            .ceil();
        (minutes, world.total_machine_time())
    };
    let (verbatim_minutes, verbatim_tmt) = run(false);
    let (thought_minutes, thought_tmt) = run(true);
    assert!(
        thought_minutes < verbatim_minutes
            || (thought_minutes == verbatim_minutes && thought_tmt <= verbatim_tmt)
    );
}

#[test]
fn unresearch_forgets_a_technology() {
    let mut world = fresh_world();
    world.prefer_fuel("chemical", Item::tangible("coal"));
    world.place("burner-mining-drill", n(1)).unwrap();
    world.place("stone-furnace", n(1)).unwrap();
    world.place("lab", n(1)).unwrap();
    world.research("logistics").unwrap();
    assert!(world.researched("logistics"));
    world.unresearch("logistics");
    assert!(!world.researched("logistics"));
}

#[test]
fn item_names_and_identity() {
    let item = Item::tangible("iron-plate");
    assert_eq!(item.name().as_str(), "iron-plate");
    assert!(item.is("iron-plate"));
    assert!(!item.is("iron-ore"));
    let energy = Item::Energy {
        fuel_category: Some("chemical".to_string()),
        energy_type: EnergyType::Burner,
    };
    assert!(!energy.is("iron-plate"));
}

#[test]
fn build_crafts_and_registers_the_machines() {
    let mut world = fresh_world();
    world.prefer_fuel("chemical", Item::tangible("coal"));
    world.place("burner-mining-drill", n(1)).unwrap();
    world.place("stone-furnace", n(1)).unwrap();
    world.build(Item::tangible("assembling-machine-1"), n(2)).unwrap();
    assert_eq!(crafted(&world, "assembling-machine-1"), n(2));
    assert_eq!(
        world.machines().get("assembling-machine-1").copied(),
        Some(n(2))
    );
}

#[test]
fn split_order_matters_across_bundles() {
    // A machine built in an earlier bundle is available to a later one;
    // the other way round the later demand finds no machine.
    let run = |build_first: bool| {
        let mut world = fresh_world();
        world.prefer_fuel("chemical", Item::tangible("coal"));
        world.place("burner-mining-drill", n(1)).unwrap();
        world.place("stone-furnace", n(1)).unwrap();
        let mut build = Tasks::new();
        build.build.add(Item::tangible("assembling-machine-1"), n(1));
        let mut craft = Tasks::new();
        craft.craft.add(Item::tangible("iron-gear-wheel"), n(1));
        let plan = {
            let mut planner = world.planner();
            if build_first {
                planner.add_tasks(build);
                planner.add_tasks(craft);
            } else {
                planner.add_tasks(craft);
                planner.add_tasks(build);
            }
            planner.think().unwrap()
        };
        plan.execute(&mut world)
    };
    assert!(run(true).is_ok());
    assert!(matches!(run(false), Err(PlanError::NoRecipeFound { .. })));
}

#[test]
fn science_multiplier_scales_research_recipes() {
    let world = World::new(&small_catalog(), RecipeMode::Normal, n(2)).unwrap();
    let rec = world.graph().recipes.get("research logistics").unwrap();
    // Unit count 2, multiplier 2: four packs, four unit times.
    assert_eq!(rec.ingredients.get(&Item::tangible("science-pack-1")).unwrap(), n(4));
    assert_eq!(rec.crafting_time.unwrap(), n(20));
    // A technology that opts out keeps its bare unit count.
    let bare = world.graph().recipes.get("research chemistry").unwrap();
    assert_eq!(bare.ingredients.get(&Item::tangible("science-pack-1")).unwrap(), n(3));
    assert_eq!(bare.crafting_time.unwrap(), n(15));
}

#[test]
fn formula_cost_research_is_absent_from_the_graph() {
    let mut world = fresh_world();
    // The catalog lists the technology, but its formula-defined cost keeps
    // it out of the graph, so researching it fails as unknown.
    let err = world.research("mystery");
    assert!(matches!(err, Err(PlanError::UnknownResearch { .. })));
    assert!(!world.researched("mystery"));
}

#[test]
fn build_grows_the_owned_count_even_while_thinking() {
    let mut world = fresh_world();
    world.prefer_fuel("chemical", Item::tangible("coal"));
    world.place("burner-mining-drill", n(1)).unwrap();
    world.place("stone-furnace", n(1)).unwrap();
    world.set_no_thinking(false);
    world.build(Item::tangible("assembling-machine-1"), n(3)).unwrap();
    let owned = world
        .machines()
        .get("assembling-machine-1")
        .copied()
        .unwrap_or_else(|| n(0));
    assert!(owned >= n(3));
}
