use swarms_rs::logging::{
    level_from_setting, log_agent_init, log_agent_state_change, log_agent_task_completion, log_line, LevelChoice,
};
use swarms_rs::meme::{MemeAgentConfig, MemeAgentGenerator, MemeSwarmConfig};
use swarms_rs::persistence::{compress, decompress, log_file_line, PersistenceError};
use swarms_rs::task_hash::{hex, metadata_file_name, state_file_stem, task_hash_tag};
use swarms_rs::text::{contains_text, decimal, split_on, trim};
use swarms_rs::tool_schema::{
    plan_tool_args, default_description, get_json_type, is_custom_struct, parse_arg, parse_tool_attribute, to_pascal_case,
    tool_names, ArgItem, JsonKind, LitValue, MetaItem, TypeShape,
};
use swarms_rs::tree::{new_tree_agent_state_file, ForestSwarm, Tree, TreeAgent};

#[test]
fn text_helpers() {
    assert_eq!(decimal(0), "0");
    assert_eq!(decimal(1234567890), "1234567890");
    assert_eq!(hex(0), "0");
    assert_eq!(hex(255), "ff");
    assert_eq!(hex(0xdead_beef), "deadbeef");
    assert_eq!(trim("  a b \n"), "a b");
    assert_eq!(trim("\u{3000}x\u{2003}"), "x");
    assert_eq!(split_on("a->b->", "->"), vec!["a".to_string(), "b".to_string(), String::new()]);
    assert!(contains_text("hello", "ll"));
    assert!(contains_text("hello", ""));
    assert!(!contains_text("hello", "lo!"));
}

#[test]
fn file_names_use_the_low_bits_of_the_task_hash() {
    let tag = task_hash_tag("some task");
    let mut h = twox_hash::XxHash3_64::default();
    std::hash::Hash::hash("some task", &mut h);
    let expected = format!("{:x}", std::hash::Hasher::finish(&h) & 0xFFFF_FFFF);
    assert_eq!(tag, expected);
    assert_eq!(state_file_stem("agent", "some task"), format!("agent_{}", expected));
    assert_eq!(metadata_file_name("some task"), format!("{}.json", expected));
    let s = String::from("some task");
    let mut h2 = twox_hash::XxHash3_64::default();
    std::hash::Hash::hash(&s, &mut h2);
    assert_eq!(format!("{:x}", std::hash::Hasher::finish(&h2) & 0xFFFF_FFFF), expected);
}

#[test]
fn log_messages() {
    assert_eq!(log_agent_init("a", "1", "cfg"), "🎯 Agent [a:1] initialized with config: cfg");
    assert_eq!(log_agent_task_completion("a", "1", "t", 42), "✅ Agent [a:1] completed task 't' in 42ms");
    assert_eq!(log_agent_state_change("a", "1", "idle", "busy"), "🔄 Agent [a:1] state transition: idle → busy");
    assert_eq!(log_line("2024", "swarms", "INFO", "hi"), "2024 [swarms] INFO - hi");
}

#[test]
fn log_level_setting() {
    let (up, level) = level_from_setting(Some("debug".to_string()));
    assert_eq!(up, "DEBUG");
    assert!(matches!(level, Some(LevelChoice::Debug)));
    let (up, level) = level_from_setting(None);
    assert_eq!(up, "INFO");
    assert!(matches!(level, Some(LevelChoice::Info)));
    let (_, level) = level_from_setting(Some("loud".to_string()));
    assert!(level.is_none());
    assert!(matches!(level_from_setting(Some("off".to_string())).1, Some(LevelChoice::Off)));
}

#[test]
fn compression_round_trip() {
    let data = b"hello hello hello hello".to_vec();
    let c = compress(&data).ok().unwrap();
    assert_ne!(c, data);
    let d = decompress(&c).ok().unwrap();
    assert_eq!(d, data);
    assert!(matches!(decompress(b"not zstd"), Err(PersistenceError::IoError(_))));
    assert_eq!(log_file_line("2024-01-01 00:00:00", "msg"), "2024-01-01 00:00:00 - msg");
}

#[test]
fn trees_and_forests() {
    let a = TreeAgent::new("gpt", "writer", "You write");
    assert_eq!(a.model, "gpt");
    assert_eq!(a.agent_name, "writer");
    assert_eq!(a.system_prompt, "You write");
    let tree = Tree::new("t", vec![a]);
    assert_eq!(tree.tree_name, "t");
    let picked = tree.find_relevant_agent("task").unwrap();
    assert_eq!(picked.agent_name, "writer");
    let empty = Tree::new("e", vec![]);
    assert!(empty.find_relevant_agent("task").is_none());
    let forest = ForestSwarm::new(vec![tree, empty]);
    assert!(forest.save_file_path.starts_with("forest_swarm_"));
    assert!(forest.save_file_path.ends_with(".json"));
    assert_eq!(forest.save_file_path.len(), "forest_swarm_".len() + 36 + ".json".len());
    assert!(forest.find_relevant_tree("task").is_some());
    assert!(ForestSwarm::new(vec![]).find_relevant_tree("task").is_none());
}

#[test]
fn tree_agent_provider_and_state_file() {
    let deepseek = TreeAgent::new("deepseek-chat", "a", "p");
    assert_eq!(
        deepseek.provider_vars(),
        ("DEEPSEEK_BASE_URL".to_string(), "DEEPSEEK_API_KEY".to_string())
    );
    let other = TreeAgent::new("gpt-4o", "b", "p");
    assert_eq!(other.provider_vars(), ("OPENAI_BASE_URL".to_string(), "OPENAI_API_KEY".to_string()));
    let file = new_tree_agent_state_file();
    assert!(file.starts_with("./temp/test_tree_agent_state_"));
    assert!(file.ends_with(".json"));
    assert_eq!(file.len(), "./temp/test_tree_agent_state_".len() + 36 + ".json".len());
    assert_ne!(file, new_tree_agent_state_file());
}

#[test]
fn meme_generator_does_nothing_yet() {
    MemeAgentGenerator::new("n", "d", "p");
    MemeAgentGenerator::run("task");
    MemeAgentGenerator::swarm_router();
    let agent = MemeAgentConfig { name: "n".to_string(), description: "d".to_string(), system_prompt: "p".to_string() };
    let swarm = MemeSwarmConfig { name: "s".to_string(), description: "d".to_string(), agents: vec![agent], max_loops: 1 };
    assert_eq!(swarm.agents.len(), 1);
}

#[test]
fn pascal_case_and_tool_names() {
    assert_eq!(to_pascal_case("task_evaluator"), "TaskEvaluator");
    assert_eq!(to_pascal_case("a__b"), "AB");
    assert_eq!(to_pascal_case("straße_x"), "StraßeX");
    assert_eq!(to_pascal_case("ß"), "SS");
    let n = tool_names(None, "get_price");
    assert_eq!(n.tool_name, "get_price");
    assert_eq!(n.struct_name, "GetPriceTool");
    assert_eq!(n.static_name, "GetPrice");
    assert_eq!(n.args_struct_name, "GetPriceArgs");
    assert_eq!(tool_names(Some("x_y".to_string()), "f").struct_name, "XYTool");
    assert_eq!(default_description("calc"), "Function to calc");
}

fn path(name: &str, arg: Option<TypeShape>) -> TypeShape {
    TypeShape::Path { name: name.to_string(), first_arg: arg.map(Box::new) }
}

#[test]
fn json_types_of_rust_types() {
    assert!(matches!(get_json_type(&path("u32", None)), JsonKind::Number));
    assert!(matches!(get_json_type(&path("str", None)), JsonKind::Text));
    assert!(matches!(get_json_type(&path("bool", None)), JsonKind::Boolean));
    assert!(matches!(get_json_type(&path("Point", None)), JsonKind::Object));
    assert!(matches!(get_json_type(&TypeShape::Other), JsonKind::Object));
    match get_json_type(&path("Vec", Some(path("String", None)))) {
        JsonKind::Array(Some(inner)) => assert!(matches!(*inner, JsonKind::Text)),
        _ => panic!(),
    }
    assert!(matches!(get_json_type(&path("Vec", None)), JsonKind::Array(None)));
    assert!(is_custom_struct(&path("Point", None)));
    assert!(is_custom_struct(&path("Vec", Some(path("Point", None)))));
    assert!(!is_custom_struct(&path("Vec", Some(path("u8", None)))));
    assert!(!is_custom_struct(&path("Option", None)));
    assert!(!is_custom_struct(&TypeShape::Other));
    assert!(!is_custom_struct(&path("HashMap", Some(path("String", None)))));
    assert!(!is_custom_struct(&path("char", None)));
    assert!(!is_custom_struct(&path("u128", None)));
    assert!(is_custom_struct(&path("Vec", Some(path("Vec", Some(path("MyArgs", None)))))));
}

fn s(v: &str) -> LitValue {
    LitValue { as_str: Ok(v.to_string()), as_bool: Err("expected boolean literal".to_string()) }
}

fn b(v: bool) -> LitValue {
    LitValue { as_str: Err("expected string literal".to_string()), as_bool: Ok(v) }
}

#[test]
fn attribute_entries() {
    let metas = vec![
        MetaItem::NameValue { key: Some("description".to_string()), value: s("Adds") },
        MetaItem::ArgList {
            args: vec![ArgItem {
                name: Ok(" x ".to_string()),
                props: vec![Some((Some("description".to_string()), s("first"))), Some((Some("required".to_string()), b(false)))],
            }],
        },
        MetaItem::NameValue { key: Some("name".to_string()), value: s("adder") },
    ];
    let attr = parse_tool_attribute(&metas).ok().unwrap();
    assert_eq!(attr.name, Some("adder".to_string()));
    assert_eq!(attr.description, Some("Adds".to_string()));
    assert_eq!(attr.args.len(), 1);
    assert_eq!(attr.args[0].name, "x");
    assert_eq!(attr.args[0].description, Some("first".to_string()));
    assert_eq!(attr.args[0].required, Some(false));
}

#[test]
fn attribute_errors() {
    let err = |metas: Vec<MetaItem>| parse_tool_attribute(&metas).err().unwrap();
    assert_eq!(err(vec![MetaItem::NameValue { key: Some("colour".to_string()), value: s("red") }]), "Unknown attribute key: colour");
    assert_eq!(
        err(vec![MetaItem::NameValue { key: Some("name".to_string()), value: b(true) }]),
        "Expected string literal, error: expected string literal"
    );
    assert_eq!(err(vec![MetaItem::NameValue { key: None, value: s("x") }]), "Expected identifier");
    assert_eq!(err(vec![MetaItem::Unsupported]), "Unsupported attribute format, expected `key = value` or `arg(...)`");
    let arg = |props| ArgItem { name: Ok("a".to_string()), props };
    assert_eq!(parse_arg(&arg(vec![None])).err().unwrap(), "Expected `key = value` format for arg properties");
    assert_eq!(
        parse_arg(&arg(vec![Some((Some("size".to_string()), s("1")))])).err().unwrap(),
        "Unknown arg property: size"
    );
    assert_eq!(
        parse_arg(&arg(vec![Some((Some("required".to_string()), s("yes")))])).err().unwrap(),
        "Expected boolean literal (true/false) for 'required' attribute, got: expected boolean literal"
    );
    assert_eq!(
        parse_arg(&arg(vec![Some((Some("description".to_string()), b(true)))])).err().unwrap(),
        "Expected string literal for description, error: expected string literal"
    );
    assert_eq!(parse_arg(&ArgItem { name: Err("expected identifier".to_string()), props: vec![] }).err().unwrap(), "expected identifier");
}

fn param(name: &str, ty: TypeShape) -> swarms_rs::tool_schema::FnParam {
    swarms_rs::tool_schema::FnParam { ident: Some(name.to_string()), ty }
}

fn meta(name: &str, description: Option<&str>, required: Option<bool>) -> swarms_rs::tool_schema::ArgMeta {
    swarms_rs::tool_schema::ArgMeta {
        name: name.to_string(),
        description: description.map(|d| d.to_string()),
        required,
    }
}

#[test]
fn tool_argument_plan() {
    let params = vec![param("a", path("u32", None)), param("b", path("Option", Some(path("String", None))))];
    let plan = plan_tool_args(&params, &vec![meta("b", Some("second"), Some(false))]).ok().unwrap();
    assert_eq!(plan.descriptions, vec!["Parameter a".to_string(), "second".to_string()]);
    assert_eq!(plan.required, vec!["a".to_string()]);
    assert!(!plan.struct_args);

    let err = |params: &Vec<swarms_rs::tool_schema::FnParam>, args: Vec<swarms_rs::tool_schema::ArgMeta>| {
        plan_tool_args(params, &args).err().unwrap()
    };
    let two_structs = vec![param("p", path("Point", None)), param("q", path("u8", None))];
    assert_eq!(err(&two_structs, vec![]), "Struct args must be the only arg");
    assert_eq!(
        err(&params, vec![meta("a", Some("x"), Some(false))]),
        "Argument 'a' is marked as optional (required = false) but is not an Option type"
    );
    assert_eq!(err(&params, vec![meta("z", Some("x"), None)]), "Argument z not found in function arguments");
    assert_eq!(err(&params, vec![meta("a", None, None)]), "Argument a must have a description");
    assert_eq!(
        err(&params, vec![meta("a", Some("x"), None), meta("a", Some("y"), None)]),
        "Argument a appears more than once"
    );
    let pattern = vec![swarms_rs::tool_schema::FnParam { ident: None, ty: path("u8", None) }];
    assert_eq!(err(&pattern, vec![]), "Only simple identifiers are supported in tool arguments");
    let one_struct = vec![param("p", path("Point", None))];
    assert!(plan_tool_args(&one_struct, &vec![]).ok().unwrap().struct_args);
}
