use campman::blueprint::{ChoiceFilter, ChoiceSource, FieldBlueprint, MalformedFilter};
use campman::config::{
    choice_source_from_file, load_blueprints_from_table, parse_choice_sources, parse_choices,
    parse_fields, ConfigError, ConfigValue, FileTexts,
};
use campman::npc_builder::{NpcBlueprint, NpcBuilder};
use campman::ordered_map::OrderedMap;

fn s(text: &str) -> String {
    text.to_string()
}

fn strings(texts: &[&str]) -> Vec<String> {
    texts.iter().map(|t| t.to_string()).collect()
}

fn text(t: &str) -> ConfigValue {
    ConfigValue::Text(s(t))
}

fn list(items: Vec<ConfigValue>) -> ConfigValue {
    ConfigValue::Array(items)
}

fn texts(items: &[&str]) -> ConfigValue {
    list(items.iter().map(|t| text(t)).collect())
}

fn entries(items: Vec<(&str, ConfigValue)>) -> OrderedMap<ConfigValue> {
    let mut tab = OrderedMap::new();
    for (k, v) in items {
        tab.insert(s(k), v);
    }
    tab
}

fn table(items: Vec<(&str, ConfigValue)>) -> ConfigValue {
    ConfigValue::Table(entries(items))
}

fn files(items: &[(&str, &str)]) -> FileTexts {
    let mut f = FileTexts::new();
    for (k, v) in items {
        f.insert(s(k), s(v));
    }
    f
}

fn err<T: std::fmt::Debug>(r: Result<T, ConfigError>) -> String {
    format!("{:?}", r.unwrap_err())
}

fn std_options(contents: &str) -> Vec<String> {
    contents
        .lines()
        .filter_map(|l| {
            let clean = l.split('#').next().unwrap().trim();
            if clean.len() > 0 {
                Some(clean.to_string())
            } else {
                None
            }
        })
        .collect()
}

#[test]
fn a_filter_is_a_field_and_a_value() {
    match ChoiceFilter::from_str(" Race : Orc ").unwrap() {
        ChoiceFilter::FieldValue { target_field, target_value } => {
            assert_eq!((target_field.as_str(), target_value.as_str()), ("Race", "Orc"));
        }
        other => panic!("unexpected: {:?}", other),
    }
    match ChoiceFilter::from_str(":").unwrap() {
        ChoiceFilter::FieldValue { target_field, target_value } => {
            assert_eq!((target_field.as_str(), target_value.as_str()), ("", ""));
        }
        other => panic!("unexpected: {:?}", other),
    }
    assert_eq!(ChoiceFilter::from_str("Race").err(), Some(MalformedFilter));
    assert_eq!(ChoiceFilter::from_str("").err(), Some(MalformedFilter));
    assert_eq!(ChoiceFilter::from_str("a:b:c").err(), Some(MalformedFilter));
}

#[test]
fn a_file_offers_a_line_each() {
    let samples = [
        "",
        "Elf\nOrc\n",
        "Elf\r\nOrc\r\n",
        "  Elf  # pointy ears\n\n# only a comment\nOrc#x#y\n   \nHalf Elf",
        "#\n#\n",
        "a\rb\nc",
        "one line without end",
        "\n\n\nx\n\n",
        "tab\tinside \t# c",
    ];
    for contents in samples {
        assert_eq!(
            ChoiceSource::from_file_text(contents).options,
            std_options(contents),
            "{:?}",
            contents
        );
    }
    let source = ChoiceSource::from_file_text("Elf # a\n Orc\n");
    assert_eq!(source.options, strings(&["Elf", "Orc"]));
    assert!(matches!(source.filter, ChoiceFilter::Unconditional));
}

#[test]
fn a_file_that_is_not_known_is_named() {
    let known = files(&[("races.txt", "Elf\nOrc")]);
    let source = choice_source_from_file(&s("races.txt"), &known).unwrap();
    assert_eq!(source.options, strings(&["Elf", "Orc"]));
    assert_eq!(
        err(choice_source_from_file(&s("weapons.txt"), &known)),
        "MissingFile(\"weapons.txt\")"
    );
}

#[test]
fn a_list_of_texts_is_a_pool() {
    let source = ChoiceSource::from_array(&vec![text("a"), text("b")]).unwrap();
    assert_eq!(source.options, strings(&["a", "b"]));
    assert_eq!(ChoiceSource::from_array(&vec![]).unwrap().options, strings(&[]));
    assert_eq!(
        err(ChoiceSource::from_array(&vec![text("a"), ConfigValue::Integer(3), text("b")])),
        "ExpectedText"
    );
}

#[test]
fn a_choice_has_a_file_or_values_and_maybe_a_filter() {
    let known = files(&[("f", "x\ny")]);
    let c = ChoiceSource::from_table(&entries(vec![("file", text("f"))]), &known).unwrap();
    assert_eq!(c.options, strings(&["x", "y"]));
    let c = ChoiceSource::from_table(
        &entries(vec![("values", texts(&["p"])), ("filter", text("Race: Orc"))]),
        &known,
    )
    .unwrap();
    assert_eq!(c.options, strings(&["p"]));
    assert!(matches!(c.filter, ChoiceFilter::FieldValue { .. }));
    let from = |items| err(ChoiceSource::from_table(&entries(items), &known));
    assert_eq!(from(vec![]), "FileXorValues");
    assert_eq!(from(vec![("file", text("f")), ("values", texts(&[]))]), "FileXorValues");
    assert_eq!(from(vec![("file", ConfigValue::Integer(1))]), "ExpectedText");
    assert_eq!(from(vec![("file", text("g"))]), "MissingFile(\"g\")");
    assert_eq!(from(vec![("values", text("p"))]), "ExpectedArray");
    assert_eq!(from(vec![("values", list(vec![ConfigValue::Other]))]), "ExpectedText");
    assert_eq!(from(vec![("values", texts(&[])), ("filter", text("x"))]), "MalformedFilter");
    assert_eq!(
        from(vec![("values", texts(&[])), ("filter", ConfigValue::Integer(1))]),
        "ExpectedText"
    );
    assert_eq!(
        from(vec![("values", text("p")), ("filter", text("x"))]),
        "ExpectedArray"
    );
}

#[test]
fn the_first_choice_that_is_none_decides() {
    let known = files(&[]);
    let ok = table(vec![("values", texts(&["a"]))]);
    let parsed = parse_choices(&vec![ok, table(vec![("values", texts(&["b"]))])], &known).unwrap();
    assert_eq!(parsed.len(), 2);
    assert_eq!(parsed[1].options, strings(&["b"]));
    assert_eq!(
        err(parse_choices(
            &vec![table(vec![("values", texts(&["a"]))]), text("x"), table(vec![])],
            &known
        )),
        "ExpectedTable"
    );
    assert_eq!(
        err(parse_choices(&vec![table(vec![]), text("x")], &known)),
        "FileXorValues"
    );
}

#[test]
fn a_field_table_has_a_file_or_choices() {
    let known = files(&[("f", "x")]);
    let sources = parse_choice_sources(&entries(vec![("file", text("f"))]), &known).unwrap();
    assert_eq!(sources.len(), 1);
    assert_eq!(sources[0].options, strings(&["x"]));
    let sources = parse_choice_sources(&entries(vec![("choices", list(vec![]))]), &known).unwrap();
    assert_eq!(sources.len(), 0);
    let from = |items| err(parse_choice_sources(&entries(items), &known));
    assert_eq!(from(vec![]), "FileXorChoices");
    assert_eq!(from(vec![("file", text("f")), ("choices", list(vec![]))]), "FileXorChoices");
    assert_eq!(from(vec![("file", list(vec![]))]), "ExpectedText");
    assert_eq!(from(vec![("choices", text("f"))]), "ExpectedArray");
    assert_eq!(from(vec![("file", text("nope"))]), "MissingFile(\"nope\")");
}

#[test]
fn a_field_is_a_path_a_list_or_a_table() {
    let known = files(&[("f", "x\ny")]);
    let f = FieldBlueprint::parse(&text("f"), &known).unwrap();
    assert_eq!((f.n_selections, f.sources.len()), (1, 1));
    assert_eq!(f.sources[0].options, strings(&["x", "y"]));
    let f = FieldBlueprint::parse(&texts(&["a", "b"]), &known).unwrap();
    assert_eq!((f.n_selections, f.sources[0].options.clone()), (1, strings(&["a", "b"])));
    let f = FieldBlueprint::parse(
        &table(vec![("n", ConfigValue::Integer(2)), ("file", text("f"))]),
        &known,
    )
    .unwrap();
    assert_eq!(f.n_selections, 2);
    let f = FieldBlueprint::parse(&table(vec![("file", text("f"))]), &known).unwrap();
    assert_eq!(f.n_selections, 1);
    let f = FieldBlueprint::parse(
        &table(vec![("n", ConfigValue::Integer(0)), ("choices", list(vec![]))]),
        &known,
    )
    .unwrap();
    assert_eq!((f.n_selections, f.sources.len()), (0, 0));
    let from = |v| err(FieldBlueprint::parse(&v, &known));
    assert_eq!(from(ConfigValue::Integer(3)), "UnexpectedNode");
    assert_eq!(from(ConfigValue::Other), "UnexpectedNode");
    assert_eq!(from(text("g")), "MissingFile(\"g\")");
    assert_eq!(from(list(vec![ConfigValue::Other])), "ExpectedText");
    assert_eq!(from(table(vec![("n", text("2")), ("file", text("f"))])), "ExpectedInteger");
    assert_eq!(from(table(vec![("n", text("2"))])), "ExpectedInteger");
    assert_eq!(
        from(table(vec![("n", ConfigValue::Integer(-1)), ("file", text("f"))])),
        "CountOutOfRange"
    );
    assert_eq!(from(table(vec![("n", ConfigValue::Integer(-1))])), "FileXorChoices");
}

fn race_and_weapon() -> ConfigValue {
    table(vec![
        ("Race", texts(&["Elf", "Orc"])),
        (
            "Weapon",
            table(vec![(
                "choices",
                list(vec![
                    table(vec![("values", texts(&["Axe"])), ("filter", text("Race: Orc"))]),
                    table(vec![("file", text("bows.txt")), ("filter", text("Race: Elf"))]),
                ]),
            )]),
        ),
    ])
}

#[test]
fn a_blueprint_is_read_and_built_from() {
    let known = files(&[("bows.txt", "Longbow\nShortbow # small\n")]);
    let blueprint = NpcBlueprint::parse(&race_and_weapon(), &known).unwrap();
    assert_eq!(blueprint.blueprints().keys(), strings(&["Race", "Weapon"]));
    let mut b = NpcBuilder::new(blueprint);
    b.set_current_field_val(strings(&["Elf"])).unwrap();
    assert_eq!(
        b.current_field_infos(),
        Some((s("Weapon"), strings(&["Longbow", "Shortbow"]), 1))
    );
}

#[test]
fn the_reader_names_the_file_it_misses_until_it_has_all() {
    let value = table(vec![("a", text("one")), ("b", text("two")), ("c", text("one"))]);
    let mut known = files(&[]);
    let mut asked = vec![];
    let blueprint = loop {
        match NpcBlueprint::parse(&value, &known) {
            Err(ConfigError::MissingFile(path)) => {
                asked.push(path.clone());
                known.insert(path.clone(), format!("from {}", path));
            }
            other => break other.unwrap(),
        }
    };
    assert_eq!(asked, strings(&["one", "two"]));
    assert_eq!(blueprint.blueprints().len(), 3);
    assert_eq!(
        blueprint.blueprints().get(&s("c")).unwrap().sources[0].options,
        strings(&["from one"])
    );
}

#[test]
fn a_blueprint_needs_a_table_and_a_root() {
    let known = files(&[]);
    assert_eq!(err(NpcBlueprint::parse(&text("x"), &known)), "ExpectedTable");
    assert_eq!(err(NpcBlueprint::parse(&table(vec![]), &known)), "NoRootFields");
    let circle = table(vec![
        (
            "A",
            table(vec![(
                "choices",
                list(vec![table(vec![("values", texts(&["x"])), ("filter", text("B:b"))])]),
            )]),
        ),
        (
            "B",
            table(vec![(
                "choices",
                list(vec![table(vec![("values", texts(&["b"])), ("filter", text("A:x"))])]),
            )]),
        ),
    ]);
    assert_eq!(err(NpcBlueprint::parse(&circle, &known)), "NoRootFields");
    assert_eq!(
        err(NpcBlueprint::parse(&table(vec![("A", texts(&["x"])), ("B", ConfigValue::Other)]), &known)),
        "UnexpectedNode"
    );
    let fields = parse_fields(&entries(vec![("A", texts(&["x"]))]), &known).unwrap();
    assert_eq!(fields.keys(), strings(&["A"]));
}

#[test]
fn blueprints_are_loaded_by_name() {
    let known = files(&[("bows.txt", "Bow")]);
    let all = load_blueprints_from_table(
        &entries(vec![
            ("hero", race_and_weapon()),
            ("villager", table(vec![("Job", texts(&["Smith"]))])),
        ]),
        &known,
    )
    .unwrap();
    assert_eq!(all.keys(), strings(&["hero", "villager"]));
    assert_eq!(all.get(&s("villager")).unwrap().blueprints().keys(), strings(&["Job"]));
    assert_eq!(
        err(load_blueprints_from_table(
            &entries(vec![("hero", race_and_weapon()), ("bad", text("x"))]),
            &known
        )),
        "ExpectedTable"
    );
    assert_eq!(
        err(load_blueprints_from_table(&entries(vec![("hero", race_and_weapon())]), &files(&[]))),
        "MissingFile(\"bows.txt\")"
    );
    assert_eq!(load_blueprints_from_table(&entries(vec![]), &known).unwrap().len(), 0);
}
