use std::collections::HashMap;

use tesseract::logic_layer::LogicLayerQueryOpt;
use tesseract::{
    deserialize_args, schema_format, Cube, Dimension, Error, Hierarchy, Level, Property,
    SchemaFormat, Table,
};

fn s(x: &str) -> String {
    x.to_string()
}

fn strings(xs: &[&str]) -> Vec<String> {
    xs.iter().map(|x| x.to_string()).collect()
}

#[test]
fn deserialize_args_bracketed_items() {
    assert_eq!(deserialize_args(s("[a],[b,c]")), strings(&["a", "b,c"]));
    assert_eq!(deserialize_args(s("[Geography].[Country]")), strings(&["Geography", ".Country"]));
    assert_eq!(deserialize_args(s("Year")), strings(&["Year"]));
}

#[test]
fn deserialize_args_commas_outside_brackets_are_dropped() {
    assert_eq!(deserialize_args(s("a,b")), strings(&["ab"]));
    assert_eq!(deserialize_args(s(",,[x],")), strings(&["x"]));
    assert_eq!(deserialize_args(s("[x]y")), strings(&["x", "y"]));
}

#[test]
fn deserialize_args_edge_cases() {
    assert_eq!(deserialize_args(s("")), Vec::<String>::new());
    assert_eq!(deserialize_args(s("[]")), strings(&[""]));
    assert_eq!(deserialize_args(s("[[a]")), strings(&["a"]));
    assert_eq!(deserialize_args(s("]]")), strings(&["", ""]));
    assert_eq!(deserialize_args(s("[ä,ö]")), strings(&["ä,ö"]));
    assert_eq!(deserialize_args(s("[open")), strings(&["open"]));
}

#[test]
fn method_and_function_agree() {
    for x in ["[a],[b]", "a,b", "", "[x,y]z"] {
        assert_eq!(LogicLayerQueryOpt::deserialize_args(s(x)), deserialize_args(s(x)));
    }
}

fn level(name: &str, props: Vec<&str>) -> Level {
    Level {
        name: s(name),
        key_column: s("k"),
        name_column: None,
        properties: Some(props.into_iter().map(|p| Property { name: s(p), column: s("c"), annotations: None }).collect()),
        key_type: None,
        annotations: None,
    }
}

fn cube() -> Cube {
    Cube {
        name: s("sales"),
        table: Table { name: s("t"), schema: None, primary_key: None },
        can_aggregate: false,
        dimensions: vec![Dimension {
            name: s("Geo"),
            foreign_key: None,
            hierarchies: vec![Hierarchy {
                name: s("GeoH"),
                table: None,
                primary_key: s("id"),
                levels: vec![level("Country", vec!["ISO"]), level("City", vec![])],
                annotations: None,
            }],
            annotations: None,
        }],
        measures: vec![],
        annotations: None,
    }
}

fn one(k: &str, v: &str) -> HashMap<String, String> {
    let mut m = HashMap::new();
    m.insert(s(k), s(v));
    m
}

#[test]
fn params_cube_and_options() {
    let q = LogicLayerQueryOpt::from_params_map(one("cube", "sales"), cube()).unwrap();
    assert_eq!(q.cube, "sales");
    assert_eq!(q.drilldowns, None);
    assert_eq!(q.time, None);
    assert_eq!(q.cuts, None);
    assert_eq!(q.filters, None);

    let q = LogicLayerQueryOpt::from_params_map(one("parents", "true"), cube()).unwrap();
    assert_eq!(q.parents, Some(true));
    let q = LogicLayerQueryOpt::from_params_map(one("debug", "yes"), cube()).unwrap();
    assert_eq!(q.debug, Some(false));
    let q = LogicLayerQueryOpt::from_params_map(one("top", "10,Country,Quantity,desc"), cube()).unwrap();
    assert_eq!(q.top, Some(s("10,Country,Quantity,desc")));
    let q = LogicLayerQueryOpt::from_params_map(one("measures", "[Quantity],[Price]"), cube()).unwrap();
    assert_eq!(q.measures, Some(strings(&["Quantity", "Price"])));
}

#[test]
fn params_drilldowns_stop_at_unknown_level() {
    let q = LogicLayerQueryOpt::from_params_map(one("drilldowns", "[City],[Month],[Country]"), cube()).unwrap();
    assert_eq!(q.drilldowns, Some(strings(&["[Geo].[GeoH].[City]"])));
    let q = LogicLayerQueryOpt::from_params_map(one("drilldowns", "Country"), cube()).unwrap();
    assert_eq!(q.drilldowns, Some(strings(&["[Geo].[GeoH].[Country]"])));
}

#[test]
fn params_properties() {
    let q = LogicLayerQueryOpt::from_params_map(one("properties", "[ISO]"), cube()).unwrap();
    assert_eq!(q.properties, Some(strings(&["[Geo].[GeoH].[Country].[ISO]"])));
}

#[test]
fn params_time() {
    let q = LogicLayerQueryOpt::from_params_map(one("time", "year.latest"), cube()).unwrap();
    assert_eq!(q.time, Some(vec![(s("year"), s("latest"))]));
    let err = LogicLayerQueryOpt::from_params_map(one("time", "year"), cube()).unwrap_err();
    assert_eq!(err, Error::WrongTimeFormat);
    assert_eq!(err.message(), "Wrong format for time argument.");
}

#[test]
fn params_cuts() {
    let q = LogicLayerQueryOpt::from_params_map(one("Country", "1,2"), cube()).unwrap();
    assert_eq!(q.cuts, Some(strings(&["[Geo].[GeoH].[Country].[1,2]"])));
    let q = LogicLayerQueryOpt::from_params_map(one("Unknown", "1"), cube()).unwrap();
    assert_eq!(q.cuts, None);
}

#[test]
fn params_in_order() {
    let entries = vec![
        (s("cube"), s("sales")),
        (s("time"), s("year.2019")),
        (s("time"), s("year.latest")),
        (s("time"), s("month.3")),
        (s("City"), s("7")),
        (s("Unknown"), s("x")),
        (s("cube"), s("other")),
        (s("time"), s("bad")),
    ];
    let q = LogicLayerQueryOpt::from_params_entries(&entries, &cube()).unwrap();
    assert_eq!(q.cube, "sales");
    assert_eq!(q.time, Some(vec![(s("year"), s("latest")), (s("month"), s("3"))]));
    assert_eq!(q.cuts, Some(strings(&["[Geo].[GeoH].[City].[7]"])));

    let entries = vec![(s("time"), s("a.b.c")), (s("cube"), s("sales"))];
    assert_eq!(LogicLayerQueryOpt::from_params_entries(&entries, &cube()).unwrap_err(), Error::WrongTimeFormat);
}

#[test]
fn params_map_of_several_keys() {
    let mut m = HashMap::new();
    m.insert(s("cube"), s("sales"));
    m.insert(s("measures"), s("Quantity"));
    m.insert(s("limit"), s("5"));
    let q = LogicLayerQueryOpt::from_params_map(m, cube()).unwrap();
    assert_eq!(q.cube, "sales");
    assert_eq!(q.measures, Some(strings(&["Quantity"])));
    assert_eq!(q.limit, Some(s("5")));
}

#[test]
fn schema_formats() {
    assert_eq!(schema_format(&s("schema.xml")), Some(SchemaFormat::Xml));
    assert_eq!(schema_format(&s("schema.json")), Some(SchemaFormat::Json));
    assert_eq!(schema_format(&s("xml")), Some(SchemaFormat::Xml));
    assert_eq!(schema_format(&s("schema.yaml")), None);
    assert_eq!(schema_format(&s("")), None);
}

#[test]
fn deserialize_args_bracketed_item_then_rest() {
    for (a, rest) in [("x", "[y],z"), ("a,b", ""), ("", "q"), ("p.q", ",[r]")] {
        let mut expected = vec![s(a)];
        expected.extend(deserialize_args(s(rest)));
        assert_eq!(deserialize_args(format!("[{}]{}", a, rest)), expected);
    }
}

#[test]
fn deserialize_args_leading_comma_dropped() {
    for rest in ["[a]", "b", "", "[c,d],e"] {
        assert_eq!(deserialize_args(format!(",{}", rest)), deserialize_args(s(rest)));
    }
}

#[test]
fn deserialize_args_items_hold_no_brackets() {
    for x in ["[[a]]", "]x[y", "[a[b]c]", "[,]]]"] {
        for item in deserialize_args(s(x)) {
            assert!(!item.contains('[') && !item.contains(']'), "{:?} in {:?}", item, x);
        }
    }
}
