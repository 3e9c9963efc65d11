use ideal_city::tutorial_config::{
    one, Condition, RawHandout, RawReward, RawStep, RawTutorial, TutorialConfig, TutorialConfigError,
};

fn handout(npc: &str, item: &str) -> RawHandout {
    RawHandout {
        npc: npc.to_string(),
        item: item.to_string(),
        qty: one(),
        cooldown_secs: 0,
        once: false,
        when: Vec::new(),
        line: String::new(),
    }
}

fn step(id: &str, text: &str, when: &str) -> RawStep {
    RawStep { id: id.to_string(), text: text.to_string(), when: when.to_string() }
}

fn reward(item: &str, qty: i64) -> RawReward {
    RawReward { item: item.to_string(), qty }
}

fn tutorial(handout: Vec<RawHandout>, step: Vec<RawStep>, reward: Vec<RawReward>) -> RawTutorial {
    RawTutorial { handout, step, reward }
}

fn refusal(raw: RawTutorial) -> String {
    TutorialConfig::parse(raw).unwrap_err().message()
}

/// Every condition form is read, and nonsense is refused with a reason.
#[test]
fn conditions_parse_or_say_why_not() {
    assert_eq!(Condition::parse("has_item pickaxe"), Ok(Condition::HasItem("pickaxe".into())));
    assert_eq!(Condition::parse("no_item pickaxe"), Ok(Condition::NoItem("pickaxe".into())));
    assert_eq!(
        Condition::parse("inventory_below iron_ore 1"),
        Ok(Condition::InventoryBelow("iron_ore".into(), 1))
    );
    assert_eq!(Condition::parse("gained clay_lump 4"), Ok(Condition::Gained("clay_lump".into(), 4)));
    assert_eq!(Condition::parse("made iron_ingot"), Ok(Condition::Made("iron_ingot".into())));
    assert_eq!(Condition::parse("loaded_fuel"), Ok(Condition::LoadedFuel));

    assert!(Condition::parse("").is_err());
    assert!(Condition::parse("has_item").is_err(), "an arity error is still an error");
    assert!(Condition::parse("gained clay_lump lots").unwrap_err().contains("not a number"));
    assert!(Condition::parse("summon_dragon").unwrap_err().contains("not a condition"));
}

#[test]
fn conditions_are_told_apart_by_any_white_space() {
    assert_eq!(
        Condition::parse("  gained\tclay_lump \u{2003}+7\n"),
        Ok(Condition::Gained("clay_lump".into(), 7))
    );
    assert_eq!(
        Condition::parse("inventory_below wood -3"),
        Ok(Condition::InventoryBelow("wood".into(), -3))
    );
    assert_eq!(Condition::parse(" \t "), Err("is empty".to_string()));
    assert_eq!(Condition::parse("gained wood 9223372036854775808"), Err("`9223372036854775808` is not a number".to_string()));
    assert_eq!(
        Condition::parse("gained wood 9223372036854775807"),
        Ok(Condition::Gained("wood".into(), i64::MAX))
    );
    assert_eq!(
        Condition::parse("gained wood -9223372036854775808"),
        Ok(Condition::Gained("wood".into(), i64::MIN))
    );
    assert_eq!(Condition::parse("gained wood -"), Err("`-` is not a number".to_string()));
    assert_eq!(
        Condition::parse("loaded_fuel twice"),
        Err(
            "`loaded_fuel` is not a condition. Known: has_item, no_item, inventory_below, gained, made, loaded_fuel"
                .to_string()
        )
    );
}

#[test]
fn a_condition_knows_its_item() {
    assert_eq!(Condition::parse("gained clay_lump 4").unwrap().item(), Some("clay_lump"));
    assert_eq!(Condition::parse("no_item axe").unwrap().item(), Some("axe"));
    assert_eq!(Condition::LoadedFuel.item(), None);
}

/// A repeatable handout with no conditions is an item printer, and a repeatable one with no cooldown is only slightly
/// slower.
#[test]
fn an_unconditional_or_uncooled_handout_refuses_to_boot() {
    let unconditional = handout("npc_quarry_foreman", "pickaxe");
    let e = refusal(tutorial(vec![unconditional], vec![], vec![]));
    assert!(e.contains("hand out forever"), "{e}");

    let mut uncooled = handout("npc_quarry_foreman", "pickaxe");
    uncooled.when = vec!["no_item pickaxe".to_string()];
    let e = refusal(tutorial(vec![uncooled], vec![], vec![]));
    assert!(e.contains("cooldown"), "{e}");

    // ...but `once` is a legitimate reason to have no cooldown.
    let mut bundle = handout("npc_quarry_foreman", "charcoal");
    bundle.qty = 10;
    bundle.once = true;
    bundle.when = vec!["loaded_fuel".to_string()];
    assert!(TutorialConfig::parse(tutorial(vec![bundle], vec![], vec![])).is_ok());
}

/// A malformed condition names the step it came from.
#[test]
fn a_malformed_step_condition_names_the_step() {
    let e = refusal(tutorial(vec![], vec![step("mine_clay", "Mine some clay", "mine 4 clay_lump")], vec![]));
    assert!(e.contains("mine_clay"), "should name the step: {e}");
    assert!(e.contains("not a condition"), "and the fault: {e}");
}

/// Conditions are held against the item registry, so a typo does not become a step that nobody can complete.
#[test]
fn a_step_watching_an_imaginary_item_refuses_to_boot() {
    let e = refusal(tutorial(vec![], vec![step("mine_clay", "Mine some clay", "gained clay_lumps 4")], vec![]));
    assert!(e.contains("clay_lumps") && e.contains("not a real item"), "{e}");
}

#[test]
fn duplicate_step_ids_refuse_to_boot() {
    let e = refusal(tutorial(vec![], vec![step("one", "a", "loaded_fuel"), step("one", "b", "loaded_fuel")], vec![]));
    assert!(e.contains("duplicate"));
}

/// Only items that some condition watches are counted.
#[test]
fn only_watched_items_are_counted() {
    let cfg = TutorialConfig::parse(tutorial(
        vec![],
        vec![
            step("clay", "Mine 4 clay", "gained clay_lump 4"),
            step("smelt", "Smelt an ingot", "made iron_ingot"),
        ],
        vec![],
    ))
    .unwrap();
    let counted: Vec<String> = ["clay_lump".to_string()].into_iter().collect();
    let made: Vec<String> = ["iron_ingot".to_string()].into_iter().collect();
    assert_eq!(cfg.counted_items(), counted);
    assert_eq!(cfg.made_items(), made);
}

#[test]
fn watched_items_come_by_name_and_once_each() {
    let mut h = handout("npc_logging_foreman", "axe");
    h.cooldown_secs = 60;
    h.when = vec!["gained stone 3".to_string(), "gained clay_lump 9".to_string(), "made plank".to_string()];
    let cfg = TutorialConfig::parse(tutorial(
        vec![h],
        vec![
            step("a", "a", "gained wood 1"),
            step("b", "b", "gained clay_lump 4"),
            step("c", "c", "made charcoal"),
        ],
        vec![reward("plank", 2)],
    ))
    .unwrap();
    assert_eq!(cfg.counted_items(), vec!["clay_lump".to_string(), "stone".to_string(), "wood".to_string()]);
    assert_eq!(cfg.made_items(), vec!["charcoal".to_string(), "plank".to_string()]);
    assert_eq!(cfg.reward, vec![("plank".to_string(), 2)]);
    assert_eq!(cfg.handouts_from("npc_logging_foreman").len(), 1);
    assert_eq!(cfg.handouts_from("npc_logging_foreman")[0].item, "axe");
    assert!(cfg.handouts_from("npc_quarry_foreman").is_empty());
}

#[test]
fn every_fault_is_named() {
    let mut h = handout("npc_quarry_foreman", "pickaxes");
    h.when = vec!["no_item pickaxe".to_string()];
    h.cooldown_secs = 1;
    assert_eq!(
        refusal(tutorial(vec![h], vec![], vec![])),
        "tutorial.toml handout `pickaxes` from `npc_quarry_foreman`: is not a real item"
    );

    let h = handout("npc_nobody", "pickaxe");
    assert_eq!(
        refusal(tutorial(vec![h], vec![], vec![])),
        "tutorial.toml handout `pickaxe` from `npc_nobody`: names NPC `npc_nobody`, who does not exist"
    );

    let mut h = handout("npc_quarry_foreman", "pickaxe");
    h.qty = 0;
    assert_eq!(
        refusal(tutorial(vec![h], vec![], vec![])),
        "tutorial.toml handout `pickaxe` from `npc_quarry_foreman`: hands over a non-positive quantity"
    );

    let mut h = handout("npc_quarry_foreman", "pickaxe");
    h.once = true;
    h.when = vec!["no_item pickaxe".to_string(), "gained wood x".to_string()];
    assert_eq!(
        refusal(tutorial(vec![h], vec![], vec![])),
        "tutorial.toml handout `pickaxe` from `npc_quarry_foreman`: condition `gained wood x` `x` is not a number"
    );

    assert_eq!(
        refusal(tutorial(vec![], vec![step("s", "t", "loaded_fuel")], vec![reward("gold", 1)])),
        "tutorial.toml reward: `gold` is not a real item"
    );
    assert_eq!(
        refusal(tutorial(vec![], vec![step("s", "t", "loaded_fuel")], vec![reward("wood", 0)])),
        "tutorial.toml reward: `wood` has a non-positive quantity"
    );
    assert_eq!(
        refusal(tutorial(vec![], vec![], vec![reward("wood", 1)])),
        "tutorial.toml reward: there are no steps to complete, so it could never be earned"
    );
    assert_eq!(
        TutorialConfig::parse(tutorial(vec![], vec![], vec![reward("wood", 1)])),
        Err(TutorialConfigError::Invalid {
            what: "reward".to_string(),
            why: "there are no steps to complete, so it could never be earned".to_string(),
        })
    );
    let nothing = TutorialConfig::parse(tutorial(vec![], vec![], vec![])).unwrap();
    assert_eq!(nothing, TutorialConfig::default());
}
