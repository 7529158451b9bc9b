use vstd::prelude::*;

use crate::config::{
    AnnotationConfigJson, CubeConfigJson, DimensionConfigJson, DimensionUsageJson,
    HierarchyConfigJson, LevelConfigJson, MeasureConfigJson, PropertyConfigJson, SchemaConfigJson,
    TableConfigJson, annotations_converted, merged_annotations,
};
use crate::flatten::{concat, lemma_concat_take_all, lemma_concat_take_step};
use crate::schema::{
    Annotation, Cube, Dimension, Hierarchy, Level, Measure, Property, Schema, Table, opt_vec_view,
    vec_view,
};

verus! {

impl Annotation {
    pub fn from_config(config: &AnnotationConfigJson) -> (r: Annotation)
        ensures
            r@ == config.converted(),
    {
        Annotation { name: config.name.clone(), text: config.text.clone() }
    }
}

fn annotations_from(config: &Option<Vec<AnnotationConfigJson>>) -> (r: Option<Vec<Annotation>>)
    ensures
        opt_vec_view(r) == annotations_converted(*config),
{
    match config {
        Some(anns) => {
            let mut r: Vec<Annotation> = Vec::new();
            let mut i: usize = 0;
            while i < anns.len()
                invariant
                    i <= anns.len(),
                    r@.len() == i,
                    forall|k: int| 0 <= k < i ==> #[trigger] r@[k]@ == anns@[k].converted(),
                decreases anns.len() - i,
            {
                r.push(Annotation::from_config(&anns[i]));
                i = i + 1;
            }
            assert(vec_view(r) =~= Seq::new(anns@.len(), |k: int| anns@[k].converted()));
            Some(r)
        },
        None => None,
    }
}

impl Property {
    pub fn from_config(config: &PropertyConfigJson) -> (r: Property)
        ensures
            r@ == config.converted(),
    {
        Property {
            name: config.name.clone(),
            column: config.column.clone(),
            annotations: annotations_from(&config.annotations),
        }
    }
}

impl Table {
    pub fn from_config(config: &TableConfigJson) -> (r: Table)
        ensures
            r@ == config.converted(),
    {
        Table {
            name: config.name.clone(),
            schema: config.schema.clone(),
            primary_key: config.primary_key.clone(),
        }
    }
}

impl Level {
    pub fn from_config(config: &LevelConfigJson) -> (r: Level)
        ensures
            r@ == config.converted(),
    {
        let properties = match &config.properties {
            Some(ps) => {
                let mut r: Vec<Property> = Vec::new();
                let mut i: usize = 0;
                while i < ps.len()
                    invariant
                        i <= ps.len(),
                        r@.len() == i,
                        forall|k: int| 0 <= k < i ==> #[trigger] r@[k]@ == ps@[k].converted(),
                    decreases ps.len() - i,
                {
                    r.push(Property::from_config(&ps[i]));
                    i = i + 1;
                }
                assert(vec_view(r) =~= Seq::new(ps@.len(), |k: int| ps@[k].converted()));
                Some(r)
            },
            None => None,
        };
        Level {
            name: config.name.clone(),
            key_column: config.key_column.clone(),
            name_column: config.name_column.clone(),
            properties,
            key_type: config.key_type,
            annotations: annotations_from(&config.annotations),
        }
    }
}

impl Hierarchy {
    /// The primary key is the configured one, or else the key column of the
    /// last level.
    pub fn from_config(config: &HierarchyConfigJson) -> (r: Hierarchy)
        requires
            config.convertible(),
        ensures
            r@ == config.converted(),
    {
        let mut levels: Vec<Level> = Vec::new();
        let mut i: usize = 0;
        while i < config.levels.len()
            invariant
                i <= config.levels.len(),
                levels@.len() == i,
                forall|k: int| 0 <= k < i ==> #[trigger] levels@[k]@ == config.levels@[k].converted(),
            decreases config.levels.len() - i,
        {
            levels.push(Level::from_config(&config.levels[i]));
            i = i + 1;
        }
        assert(vec_view(levels) =~= Seq::new(
            config.levels@.len(),
            |k: int| config.levels@[k].converted(),
        ));
        let primary_key = match &config.primary_key {
            Some(pk) => pk.clone(),
            None => {
                let n = config.levels.len();
                config.levels[n - 1].key_column.clone()
            },
        };
        let table = match &config.table {
            Some(t) => Some(Table::from_config(t)),
            None => None,
        };
        Hierarchy {
            name: config.name.clone(),
            table,
            primary_key,
            levels,
            annotations: annotations_from(&config.annotations),
        }
    }
}

impl Dimension {
    pub fn from_config(config: &DimensionConfigJson) -> (r: Dimension)
        requires
            config.convertible(),
        ensures
            r@ == config.converted(),
    {
        let mut hierarchies: Vec<Hierarchy> = Vec::new();
        let mut j: usize = 0;
        while j < config.hierarchies.len()
            invariant
                config.convertible(),
                j <= config.hierarchies.len(),
                hierarchies@.len() == j,
                forall|k: int|
                    0 <= k < j ==> #[trigger] hierarchies@[k]@ == config.hierarchies@[k].converted(),
            decreases config.hierarchies.len() - j,
        {
            assert(config.hierarchies@[j as int].convertible());
            hierarchies.push(Hierarchy::from_config(&config.hierarchies[j]));
            j = j + 1;
        }
        assert(vec_view(hierarchies) =~= Seq::new(
            config.hierarchies@.len(),
            |k: int| config.hierarchies@[k].converted(),
        ));
        Dimension {
            name: config.name.clone(),
            foreign_key: config.foreign_key.clone(),
            hierarchies,
            annotations: annotations_from(&config.annotations),
        }
    }
}

impl Measure {
    pub fn from_config(config: &MeasureConfigJson) -> (r: Measure)
        ensures
            r@ == config.converted(),
    {
        Measure {
            name: config.name.clone(),
            column: config.column.clone(),
            aggregator: config.aggregator,
            annotations: annotations_from(&config.annotations),
        }
    }
}

/// Appends the dimensions that `usage` makes of the shared dimensions.
fn push_usage_dimensions(
    usage: &DimensionUsageJson,
    shared: &Vec<DimensionConfigJson>,
    out: &mut Vec<Dimension>,
)
    requires
        forall|k: int|
            0 <= k < shared@.len() && #[trigger] shared@[k].name@ == usage.name@
                ==> shared@[k].convertible(),
    ensures
        vec_view(*final(out)) == vec_view(*old(out)) + usage.dimensions(shared@),
{
    let ghost start = vec_view(*out);
    let ghost lists = usage.dimension_lists(shared@);
    let mut k: usize = 0;
    assert(start + concat(lists.take(0)) =~= start);
    while k < shared.len()
        invariant
            forall|k: int|
                0 <= k < shared@.len() && #[trigger] shared@[k].name@ == usage.name@
                    ==> shared@[k].convertible(),
            k <= shared.len(),
            lists == usage.dimension_lists(shared@),
            vec_view(*out) == start + concat(lists.take(k as int)),
        decreases shared.len() - k,
    {
        let ghost before = vec_view(*out);
        proof {
            lemma_concat_take_step(lists, k as int);
        }
        if usage.name == shared[k].name {
            let mut dimension = Dimension::from_config(&shared[k]);
            dimension.foreign_key = Some(usage.foreign_key.clone());
            let shared_annotations = annotations_from(&shared[k].annotations);
            let usage_annotations = annotations_from(&usage.annotations);
            dimension.annotations = match (shared_annotations, usage_annotations) {
                (Some(mut s), Some(mut u)) => {
                    let ghost sv = vec_view(s);
                    let ghost uv = vec_view(u);
                    s.append(&mut u);
                    assert(vec_view(s) =~= sv + uv);
                    Some(s)
                },
                _ => None,
            };
            assert(dimension@.annotations == merged_annotations(
                annotations_converted(shared@[k as int].annotations),
                annotations_converted(usage.annotations),
            ));
            out.push(dimension);
            assert(dimension@ == usage.dimension_from(shared@[k as int]));
            assert(vec_view(*out) =~= before.push(usage.dimension_from(shared@[k as int])));
            assert(lists[k as int] == seq![usage.dimension_from(shared@[k as int])]);
            assert(vec_view(*out) =~= start + concat(lists.take(k + 1)));
        } else {
            assert(lists[k as int] =~= Seq::<crate::schema::DimensionView>::empty());
            assert(vec_view(*out) =~= start + concat(lists.take(k + 1)));
        }
        k = k + 1;
    }
    proof {
        lemma_concat_take_all(lists);
    }
}

impl Cube {
    /// The cube that a cube configuration becomes, given the shared dimensions
    /// of its schema.
    pub fn from_config(config: &CubeConfigJson, shared: &Option<Vec<DimensionConfigJson>>) -> (r:
        Cube)
        requires
            config.convertible(*shared),
        ensures
            r@ == config.converted(*shared),
    {
        let mut dimensions: Vec<Dimension> = Vec::new();
        let mut i: usize = 0;
        while i < config.dimensions.len()
            invariant
                config.convertible(*shared),
                i <= config.dimensions.len(),
                dimensions@.len() == i,
                forall|k: int|
                    0 <= k < i ==> #[trigger] dimensions@[k]@ == config.dimensions@[k].converted(),
            decreases config.dimensions.len() - i,
        {
            assert(config.dimensions@[i as int].convertible());
            dimensions.push(Dimension::from_config(&config.dimensions[i]));
            i = i + 1;
        }
        let ghost own = Seq::new(
            config.dimensions@.len(),
            |k: int| config.dimensions@[k].converted(),
        );
        assert(vec_view(dimensions) =~= own);
        match (&config.dimension_usages, shared) {
            (Some(usages), Some(sh)) => {
                let ghost lists = config.usage_dimension_lists(sh@);
                let mut m: usize = 0;
                assert(own + concat(lists.take(0)) =~= own);
                while m < usages.len()
                    invariant
                        config.convertible(*shared),
                        config.dimension_usages == Some(*usages),
                        *shared == Some(*sh),
                        m <= usages.len(),
                        lists == config.usage_dimension_lists(sh@),
                        vec_view(dimensions) == own + concat(lists.take(m as int)),
                    decreases usages.len() - m,
                {
                    assert forall|k: int|
                        0 <= k < sh@.len() && #[trigger] sh@[k].name@ == usages@[m as int].name@
                        implies sh@[k].convertible() by {
                        assert(sh@[k].name@ == usages@[m as int].name@);
                    }
                    push_usage_dimensions(&usages[m], sh, &mut dimensions);
                    proof {
                        lemma_concat_take_step(lists, m as int);
                        assert(vec_view(dimensions) =~= own + concat(lists.take(m + 1)));
                    }
                    m = m + 1;
                }
                proof {
                    lemma_concat_take_all(lists);
                }
            },
            _ => {
                assert(config.usage_dimensions(*shared) =~= Seq::empty()) by {
                    if shared.is_some() {
                        assert(config.dimension_usages is None);
                        assert(config.usage_dimension_lists(shared.unwrap()@) =~= Seq::empty());
                    }
                }
                assert(vec_view(dimensions) =~= own + config.usage_dimensions(*shared));
            },
        }
        let mut measures: Vec<Measure> = Vec::new();
        let mut i: usize = 0;
        while i < config.measures.len()
            invariant
                i <= config.measures.len(),
                measures@.len() == i,
                forall|k: int|
                    0 <= k < i ==> #[trigger] measures@[k]@ == config.measures@[k].converted(),
            decreases config.measures.len() - i,
        {
            measures.push(Measure::from_config(&config.measures[i]));
            i = i + 1;
        }
        assert(vec_view(measures) =~= Seq::new(
            config.measures@.len(),
            |k: int| config.measures@[k].converted(),
        ));
        Cube {
            name: config.name.clone(),
            table: Table::from_config(&config.table),
            can_aggregate: false,
            dimensions,
            measures,
            annotations: annotations_from(&config.annotations),
        }
    }
}

impl Schema {
    /// The schema that a configuration describes. Each cube has its own
    /// dimensions followed, for each of its usages of a shared dimension, by
    /// that shared dimension under the usage's foreign key.
    pub fn from_config(config: &SchemaConfigJson) -> (r: Schema)
        requires
            config.convertible(),
        ensures
            r@ == config.converted(),
    {
        let mut cubes: Vec<Cube> = Vec::new();
        let mut i: usize = 0;
        while i < config.cubes.len()
            invariant
                config.convertible(),
                i <= config.cubes.len(),
                cubes@.len() == i,
                forall|k: int|
                    0 <= k < i ==> #[trigger] cubes@[k]@ == config.cubes@[k].converted(
                        config.shared_dimensions,
                    ),
            decreases config.cubes.len() - i,
        {
            assert(config.cubes@[i as int].convertible(config.shared_dimensions));
            cubes.push(Cube::from_config(&config.cubes[i], &config.shared_dimensions));
            i = i + 1;
        }
        assert(vec_view(cubes) =~= Seq::new(
            config.cubes@.len(),
            |k: int| config.cubes@[k].converted(config.shared_dimensions),
        ));
        Schema {
            name: config.name.clone(),
            cubes,
            annotations: annotations_from(&config.annotations),
        }
    }
}

} // verus!
