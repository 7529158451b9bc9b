use vstd::prelude::*;

pub mod config;
pub mod convert;
pub mod error;
pub mod flatten;
pub mod logic_layer;
pub mod names;
pub mod schema;
pub mod schema_config;
pub mod text;
pub mod time;

pub use config::{
    AnnotationConfigJson, CubeConfigJson, DimensionConfigJson, DimensionUsageJson,
    HierarchyConfigJson, LevelConfigJson, MeasureConfigJson, PropertyConfigJson, SchemaConfigJson,
    TableConfigJson,
};
pub use error::Error;
pub use logic_layer::{LogicLayerQueryOpt, LogicLayerQueryOptTest, deserialize_args};
pub use names::LevelName;
pub use schema::{
    Aggregator, Annotation, Cube, Dimension, Hierarchy, Level, Measure, MemberType, Property,
    Schema, Table,
};
pub use schema_config::{SchemaFormat, schema_format};
pub use time::{Time, TimePrecision, TimeValue};

verus! {

} // verus!
