use tesseract::names::Measure as MeasureName;
use tesseract::{
    Aggregator, Annotation, AnnotationConfigJson, Cube, CubeConfigJson, Dimension,
    DimensionConfigJson, DimensionUsageJson, Error, Hierarchy, HierarchyConfigJson, Level,
    LevelConfigJson, LevelName, Measure, MeasureConfigJson, MemberType, Property,
    PropertyConfigJson, Schema, SchemaConfigJson, Table, TableConfigJson,
};

fn s(x: &str) -> String {
    x.to_string()
}

fn level(name: &str, props: Option<Vec<&str>>) -> Level {
    Level {
        name: s(name),
        key_column: format!("{}_id", name),
        name_column: None,
        properties: props.map(|ps| {
            ps.into_iter()
                .map(|p| Property { name: s(p), column: format!("{}_col", p), annotations: None })
                .collect()
        }),
        key_type: Some(MemberType::NonText),
        annotations: None,
    }
}

fn hierarchy(name: &str, levels: Vec<Level>) -> Hierarchy {
    Hierarchy { name: s(name), table: None, primary_key: s("id"), levels, annotations: None }
}

fn dimension(name: &str, hierarchies: Vec<Hierarchy>) -> Dimension {
    Dimension { name: s(name), foreign_key: Some(format!("{}_fk", name)), hierarchies, annotations: None }
}

fn sample_cube() -> Cube {
    Cube {
        name: s("sales"),
        table: Table { name: s("sales_fact"), schema: None, primary_key: None },
        can_aggregate: false,
        dimensions: vec![
            dimension(
                "Geography",
                vec![
                    hierarchy("Geography", vec![level("Country", Some(vec!["ISO"])), level("City", None)]),
                    hierarchy("Region", vec![level("Region", None), level("City", Some(vec!["Population"]))]),
                ],
            ),
            dimension("Year", vec![hierarchy("Year", vec![level("Year", None)])]),
        ],
        measures: vec![
            Measure { name: s("Quantity"), column: s("qty"), aggregator: Aggregator::Sum, annotations: None },
            Measure { name: s("Price"), column: s("price"), aggregator: Aggregator::Average, annotations: None },
        ],
        annotations: None,
    }
}

fn ln(d: &str, h: &str, l: &str) -> LevelName {
    LevelName { dimension: s(d), hierarchy: s(h), level: s(l) }
}

#[test]
fn all_level_names_in_order() {
    let cube = sample_cube();
    assert_eq!(
        cube.get_all_level_names(),
        vec![
            ln("Geography", "Geography", "Country"),
            ln("Geography", "Geography", "City"),
            ln("Geography", "Region", "Region"),
            ln("Geography", "Region", "City"),
            ln("Year", "Year", "Year"),
        ]
    );
}

#[test]
fn all_level_names_of_empty_cube() {
    let mut cube = sample_cube();
    cube.dimensions = vec![];
    assert!(cube.get_all_level_names().is_empty());
}

#[test]
fn all_measure_names() {
    let cube = sample_cube();
    assert_eq!(
        cube.get_all_measure_names(),
        vec![MeasureName::new(s("Quantity")), MeasureName::new(s("Price"))]
    );
}

#[test]
fn identify_level_first_match() {
    let cube = sample_cube();
    assert_eq!(cube.identify_level(s("City")), Ok((s("Geography"), s("Geography"))));
    assert_eq!(cube.identify_level(s("Region")), Ok((s("Geography"), s("Region"))));
    assert_eq!(cube.identify_level(s("Year")), Ok((s("Year"), s("Year"))));
}

#[test]
fn identify_level_not_found() {
    let cube = sample_cube();
    let err = cube.identify_level(s("Month")).unwrap_err();
    assert_eq!(err, Error::NotFound(s("Month")));
    assert_eq!(err.message(), "'Month' not found");
}

#[test]
fn identify_property_found() {
    let cube = sample_cube();
    assert_eq!(
        cube.identify_property(s("ISO")),
        Ok((s("Geography"), s("Geography"), s("Country")))
    );
    assert_eq!(
        cube.identify_property(s("Population")),
        Ok((s("Geography"), s("Region"), s("City")))
    );
}

#[test]
fn identify_property_not_found() {
    let cube = sample_cube();
    let err = cube.identify_property(s("Area")).unwrap_err();
    assert_eq!(err.message(), "'Area' not found");
}

#[test]
fn identify_level_agrees_with_level_names() {
    let cube = sample_cube();
    for name in ["Country", "City", "Region", "Year", "Nope"] {
        let listed = cube.get_all_level_names().into_iter().find(|l| l.level == name);
        match cube.identify_level(s(name)) {
            Ok((d, h)) => {
                let l = listed.unwrap();
                assert_eq!((d, h), (l.dimension, l.hierarchy));
            }
            Err(_) => assert!(listed.is_none()),
        }
    }
}

#[test]
fn table_full_name() {
    let t = Table { name: s("fact"), schema: Some(s("public")), primary_key: None };
    assert_eq!(t.full_name(), "public.fact");
    let t = Table { name: s("fact"), schema: None, primary_key: Some(s("id")) };
    assert_eq!(t.full_name(), "fact");
}

fn ann(name: &str, text: &str) -> AnnotationConfigJson {
    AnnotationConfigJson { name: s(name), text: s(text) }
}

fn level_config(name: &str) -> LevelConfigJson {
    LevelConfigJson {
        name: s(name),
        key_column: format!("{}_key", name),
        name_column: Some(format!("{}_name", name)),
        properties: Some(vec![PropertyConfigJson { name: format!("{}_p", name), column: s("c"), annotations: None }]),
        key_type: Some(MemberType::Text),
        annotations: None,
    }
}

fn shared_geo() -> DimensionConfigJson {
    DimensionConfigJson {
        name: s("Geography"),
        foreign_key: None,
        hierarchies: vec![HierarchyConfigJson {
            name: s("Geography"),
            table: Some(TableConfigJson { name: s("geo"), schema: Some(s("dim")), primary_key: None }),
            primary_key: None,
            levels: vec![level_config("Country"), level_config("City")],
            annotations: None,
        }],
        annotations: Some(vec![ann("shared", "yes")]),
    }
}

fn schema_config() -> SchemaConfigJson {
    SchemaConfigJson {
        name: s("demo"),
        shared_dimensions: Some(vec![shared_geo()]),
        cubes: vec![CubeConfigJson {
            name: s("sales"),
            table: TableConfigJson { name: s("sales_fact"), schema: None, primary_key: None },
            dimensions: vec![DimensionConfigJson {
                name: s("Year"),
                foreign_key: Some(s("year_id")),
                hierarchies: vec![HierarchyConfigJson {
                    name: s("Year"),
                    table: None,
                    primary_key: Some(s("year_pk")),
                    levels: vec![level_config("Year")],
                    annotations: None,
                }],
                annotations: None,
            }],
            dimension_usages: Some(vec![
                DimensionUsageJson { name: s("Geography"), foreign_key: s("geo_id"), annotations: Some(vec![ann("usage", "1")]) },
                DimensionUsageJson { name: s("Missing"), foreign_key: s("m_id"), annotations: None },
            ]),
            measures: vec![MeasureConfigJson { name: s("Quantity"), column: s("qty"), aggregator: Aggregator::Sum, annotations: None }],
            annotations: Some(vec![ann("cube", "c")]),
        }],
        annotations: None,
    }
}

#[test]
fn schema_from_config_merges_shared_dimensions() {
    let config = schema_config();
    assert!(config.is_convertible());
    let schema = Schema::from_config(&config);
    assert_eq!(schema.name, "demo");
    assert_eq!(schema.annotations, None);
    assert_eq!(schema.cubes.len(), 1);
    let cube = &schema.cubes[0];
    assert!(!cube.can_aggregate);
    assert_eq!(cube.dimensions.len(), 2);
    assert_eq!(cube.dimensions[0].name, "Year");
    assert_eq!(cube.dimensions[0].hierarchies[0].primary_key, "year_pk");
    let geo = &cube.dimensions[1];
    assert_eq!(geo.name, "Geography");
    assert_eq!(geo.foreign_key, Some(s("geo_id")));
    assert_eq!(
        geo.annotations,
        Some(vec![
            Annotation { name: s("shared"), text: s("yes") },
            Annotation { name: s("usage"), text: s("1") },
        ])
    );
    // no primary key: the key column of the last level
    assert_eq!(geo.hierarchies[0].primary_key, "City_key");
    assert_eq!(geo.hierarchies[0].table.as_ref().unwrap().full_name(), "dim.geo");
    assert_eq!(geo.hierarchies[0].levels[1].name_column, Some(s("City_name")));
    assert_eq!(cube.measures[0].name, "Quantity");
    assert_eq!(cube.annotations, Some(vec![Annotation { name: s("cube"), text: s("c") }]));
}

#[test]
fn shared_dimension_annotations_need_both_lists() {
    let mut config = schema_config();
    if let Some(us) = config.cubes[0].dimension_usages.as_mut() {
        us[0].annotations = None;
    }
    let schema = Schema::from_config(&config);
    assert_eq!(schema.cubes[0].dimensions[1].annotations, None);
}

#[test]
fn no_shared_dimensions_keeps_own_dimensions() {
    let mut config = schema_config();
    config.shared_dimensions = None;
    let schema = Schema::from_config(&config);
    assert_eq!(schema.cubes[0].dimensions.len(), 1);
}

#[test]
fn a_hierarchy_without_key_or_levels_is_not_convertible() {
    let mut config = schema_config();
    if let Some(sh) = config.shared_dimensions.as_mut() {
        sh[0].hierarchies[0].levels.clear();
    }
    assert!(!config.is_convertible());
    // an unused shared dimension is never converted
    if let Some(us) = config.cubes[0].dimension_usages.as_mut() {
        us.remove(0);
    }
    assert!(config.is_convertible());
}
