use vstd::prelude::*;

use crate::flatten::concat;
use crate::schema::{
    Aggregator, AnnotationView, CubeView, DimensionView, HierarchyView, LevelView, MeasureView,
    MemberType, PropertyView, SchemaView, TableView, opt_str_view,
};

verus! {

/// A schema as it stands in a configuration file.
pub struct SchemaConfigJson {
    pub name: String,
    pub shared_dimensions: Option<Vec<DimensionConfigJson>>,
    pub cubes: Vec<CubeConfigJson>,
    pub annotations: Option<Vec<AnnotationConfigJson>>,
}

pub struct CubeConfigJson {
    pub name: String,
    pub table: TableConfigJson,
    pub dimensions: Vec<DimensionConfigJson>,
    pub dimension_usages: Option<Vec<DimensionUsageJson>>,
    pub measures: Vec<MeasureConfigJson>,
    pub annotations: Option<Vec<AnnotationConfigJson>>,
}

/// The use, in a cube, of a dimension shared by all the cubes of a schema.
pub struct DimensionUsageJson {
    pub name: String,
    pub foreign_key: String,
    pub annotations: Option<Vec<AnnotationConfigJson>>,
}

pub struct DimensionConfigJson {
    pub name: String,
    pub foreign_key: Option<String>,
    pub hierarchies: Vec<HierarchyConfigJson>,
    pub annotations: Option<Vec<AnnotationConfigJson>>,
}

pub struct HierarchyConfigJson {
    pub name: String,
    pub table: Option<TableConfigJson>,
    pub primary_key: Option<String>,
    pub levels: Vec<LevelConfigJson>,
    pub annotations: Option<Vec<AnnotationConfigJson>>,
}

pub struct LevelConfigJson {
    pub name: String,
    pub key_column: String,
    pub name_column: Option<String>,
    pub properties: Option<Vec<PropertyConfigJson>>,
    pub key_type: Option<MemberType>,
    pub annotations: Option<Vec<AnnotationConfigJson>>,
}

pub struct MeasureConfigJson {
    pub name: String,
    pub column: String,
    pub aggregator: Aggregator,
    pub annotations: Option<Vec<AnnotationConfigJson>>,
}

pub struct TableConfigJson {
    pub name: String,
    pub schema: Option<String>,
    pub primary_key: Option<String>,
}

pub struct PropertyConfigJson {
    pub name: String,
    pub column: String,
    pub annotations: Option<Vec<AnnotationConfigJson>>,
}

pub struct AnnotationConfigJson {
    pub name: String,
    pub text: String,
}

// ---------------------------------------------------------------------------
// What each configuration becomes
// ---------------------------------------------------------------------------

impl AnnotationConfigJson {
    pub open spec fn converted(self) -> AnnotationView {
        AnnotationView { name: self.name@, text: self.text@ }
    }
}

/// The annotations that an optional list of annotation configurations becomes.
pub open spec fn annotations_converted(o: Option<Vec<AnnotationConfigJson>>) -> Option<
    Seq<AnnotationView>,
> {
    match o {
        Some(v) => Some(Seq::new(v@.len(), |i: int| v@[i].converted())),
        None => None,
    }
}

impl PropertyConfigJson {
    pub open spec fn converted(self) -> PropertyView {
        PropertyView {
            name: self.name@,
            column: self.column@,
            annotations: annotations_converted(self.annotations),
        }
    }
}

impl TableConfigJson {
    pub open spec fn converted(self) -> TableView {
        TableView {
            name: self.name@,
            schema: opt_str_view(self.schema),
            primary_key: opt_str_view(self.primary_key),
        }
    }
}

impl LevelConfigJson {
    pub open spec fn converted(self) -> LevelView {
        LevelView {
            name: self.name@,
            key_column: self.key_column@,
            name_column: opt_str_view(self.name_column),
            properties: match self.properties {
                Some(ps) => Some(Seq::new(ps@.len(), |i: int| ps@[i].converted())),
                None => None,
            },
            key_type: self.key_type,
            annotations: annotations_converted(self.annotations),
        }
    }
}

impl HierarchyConfigJson {
    /// A hierarchy without a primary key takes the key column of its last
    /// level; one with neither cannot be converted.
    pub open spec fn convertible(self) -> bool {
        self.primary_key is Some || self.levels@.len() > 0
    }

    pub open spec fn converted(self) -> HierarchyView {
        HierarchyView {
            name: self.name@,
            table: match self.table {
                Some(t) => Some(t.converted()),
                None => None,
            },
            primary_key: match self.primary_key {
                Some(pk) => pk@,
                None => self.levels@.last().key_column@,
            },
            levels: Seq::new(self.levels@.len(), |i: int| self.levels@[i].converted()),
            annotations: annotations_converted(self.annotations),
        }
    }
}

impl DimensionConfigJson {
    pub open spec fn convertible(self) -> bool {
        forall|j: int| 0 <= j < self.hierarchies@.len() ==> #[trigger] self.hierarchies@[j].convertible()
    }

    pub open spec fn converted(self) -> DimensionView {
        DimensionView {
            name: self.name@,
            foreign_key: opt_str_view(self.foreign_key),
            hierarchies: Seq::new(
                self.hierarchies@.len(),
                |j: int| self.hierarchies@[j].converted(),
            ),
            annotations: annotations_converted(self.annotations),
        }
    }
}

impl MeasureConfigJson {
    pub open spec fn converted(self) -> MeasureView {
        MeasureView {
            name: self.name@,
            column: self.column@,
            aggregator: self.aggregator,
            annotations: annotations_converted(self.annotations),
        }
    }
}

/// The annotations of a shared dimension used by a cube: both lists, the
/// shared dimension's first, where both are present; none otherwise.
pub open spec fn merged_annotations(
    shared: Option<Seq<AnnotationView>>,
    usage: Option<Seq<AnnotationView>>,
) -> Option<Seq<AnnotationView>> {
    match (shared, usage) {
        (Some(s), Some(u)) => Some(s + u),
        _ => None,
    }
}

impl DimensionUsageJson {
    /// The dimension that this usage makes of the shared dimension `shared`.
    pub open spec fn dimension_from(self, shared: DimensionConfigJson) -> DimensionView {
        DimensionView {
            name: shared.name@,
            foreign_key: Some(self.foreign_key@),
            hierarchies: shared.converted().hierarchies,
            annotations: merged_annotations(
                annotations_converted(shared.annotations),
                annotations_converted(self.annotations),
            ),
        }
    }

    /// For each shared dimension, in order, the dimension that this usage
    /// makes of it if the names agree, and nothing otherwise.
    pub open spec fn dimension_lists(self, shared: Seq<DimensionConfigJson>) -> Seq<
        Seq<DimensionView>,
    > {
        Seq::new(
            shared.len(),
            |k: int|
                if shared[k].name@ == self.name@ {
                    seq![self.dimension_from(shared[k])]
                } else {
                    Seq::empty()
                },
        )
    }

    /// The dimensions that this usage adds to a cube: one for each shared
    /// dimension of its name.
    pub open spec fn dimensions(self, shared: Seq<DimensionConfigJson>) -> Seq<DimensionView> {
        concat(self.dimension_lists(shared))
    }
}

impl CubeConfigJson {
    pub open spec fn usage_dimension_lists(self, shared: Seq<DimensionConfigJson>) -> Seq<
        Seq<DimensionView>,
    > {
        match self.dimension_usages {
            Some(us) => Seq::new(us@.len(), |m: int| us@[m].dimensions(shared)),
            None => Seq::empty(),
        }
    }

    /// The dimensions that the usages of shared dimensions add to this cube.
    pub open spec fn usage_dimensions(self, shared: Option<Vec<DimensionConfigJson>>) -> Seq<
        DimensionView,
    > {
        match shared {
            Some(sh) => concat(self.usage_dimension_lists(sh@)),
            None => Seq::empty(),
        }
    }

    pub open spec fn convertible(self, shared: Option<Vec<DimensionConfigJson>>) -> bool {
        &&& forall|i: int|
            0 <= i < self.dimensions@.len() ==> #[trigger] self.dimensions@[i].convertible()
        &&& match (self.dimension_usages, shared) {
            (Some(us), Some(sh)) => forall|m: int, k: int|
                0 <= m < us@.len() && 0 <= k < sh@.len() && #[trigger] sh@[k].name@
                    == #[trigger] us@[m].name@ ==> sh@[k].convertible(),
            _ => true,
        }
    }

    /// The cube that this configuration becomes: its own dimensions, then
    /// those that its usages of the shared dimensions add.
    pub open spec fn converted(self, shared: Option<Vec<DimensionConfigJson>>) -> CubeView {
        CubeView {
            name: self.name@,
            table: self.table.converted(),
            can_aggregate: false,
            dimensions: Seq::new(self.dimensions@.len(), |i: int| self.dimensions@[i].converted())
                + self.usage_dimensions(shared),
            measures: Seq::new(self.measures@.len(), |i: int| self.measures@[i].converted()),
            annotations: annotations_converted(self.annotations),
        }
    }
}

impl SchemaConfigJson {
    /// Every hierarchy that the conversion reads has a primary key or a level.
    pub open spec fn convertible(self) -> bool {
        forall|i: int|
            0 <= i < self.cubes@.len() ==> #[trigger] self.cubes@[i].convertible(
                self.shared_dimensions,
            )
    }

    pub open spec fn converted(self) -> SchemaView {
        SchemaView {
            name: self.name@,
            cubes: Seq::new(
                self.cubes@.len(),
                |i: int| self.cubes@[i].converted(self.shared_dimensions),
            ),
            annotations: annotations_converted(self.annotations),
        }
    }
}


// ---------------------------------------------------------------------------
// Laws of the conversion
// ---------------------------------------------------------------------------

proof fn lemma_concat_all<A>(lists: Seq<Seq<A>>, p: spec_fn(A) -> bool)
    requires
        forall|i: int, j: int|
            0 <= i < lists.len() && 0 <= j < lists[i].len() ==> p(#[trigger] lists[i][j]),
    ensures
        forall|k: int| 0 <= k < concat(lists).len() ==> p(#[trigger] concat(lists)[k]),
    decreases lists.len(),
{
    if lists.len() > 0 {
        let init = lists.drop_last();
        assert forall|i: int, j: int|
            0 <= i < init.len() && 0 <= j < init[i].len() implies p(#[trigger] init[i][j]) by {
            assert(init[i] == lists[i]);
        }
        lemma_concat_all(init, p);
        let c = concat(lists);
        assert forall|k: int| 0 <= k < c.len() implies p(#[trigger] c[k]) by {
            let head = concat(init);
            if k < head.len() {
                assert(c[k] == head[k]);
            } else {
                assert(c[k] == lists.last()[k - head.len()]);
                assert(lists.last() == lists[lists.len() - 1]);
            }
        }
    }
}

/// A usage of shared dimensions brings into a cube only shared dimensions of
/// its own name, each under the usage's foreign key.
pub proof fn lemma_usage_dimensions_named(usage: DimensionUsageJson, shared: Seq<DimensionConfigJson>)
    ensures
        forall|k: int|
            0 <= k < usage.dimensions(shared).len() ==> {
                &&& (#[trigger] usage.dimensions(shared)[k]).name == usage.name@
                &&& usage.dimensions(shared)[k].foreign_key == Some(usage.foreign_key@)
            },
{
    let p = |d: DimensionView| d.name == usage.name@ && d.foreign_key == Some(usage.foreign_key@);
    let lists = usage.dimension_lists(shared);
    assert forall|i: int, j: int|
        0 <= i < lists.len() && 0 <= j < lists[i].len() implies p(#[trigger] lists[i][j]) by {
        if shared[i].name@ == usage.name@ {
            assert(lists[i] == seq![usage.dimension_from(shared[i])]);
        } else {
            assert(lists[i] == Seq::<DimensionView>::empty());
        }
    }
    lemma_concat_all(lists, p);
}

/// Each cube of a converted schema keeps its name, cannot aggregate, and has
/// its own dimensions first, in order; without shared dimensions in the
/// schema, it has no others.
pub proof fn lemma_converted_cube(config: SchemaConfigJson, i: int)
    requires
        0 <= i < config.cubes@.len(),
    ensures
        ({
            let cube = config.converted().cubes[i];
            let cube_config = config.cubes@[i];
            &&& cube.name == cube_config.name@
            &&& !cube.can_aggregate
            &&& cube.dimensions.len() >= cube_config.dimensions@.len()
            &&& forall|k: int|
                0 <= k < cube_config.dimensions@.len() ==> #[trigger] cube.dimensions[k]
                    == cube_config.dimensions@[k].converted()
            &&& config.shared_dimensions is None ==> cube.dimensions.len()
                == cube_config.dimensions@.len()
        }),
{
}

/// Converted annotations keep their names and texts, in order.
pub proof fn lemma_annotations_converted(o: Option<Vec<AnnotationConfigJson>>)
    ensures
        annotations_converted(o) is Some <==> o is Some,
        o matches Some(v) ==> {
            &&& annotations_converted(o).unwrap().len() == v@.len()
            &&& forall|i: int|
                0 <= i < v@.len() ==> (#[trigger] annotations_converted(o).unwrap()[i]).name
                    == v@[i].name@ && annotations_converted(o).unwrap()[i].text == v@[i].text@
        },
{
}

/// A converted table keeps its name, schema and primary key.
pub proof fn lemma_table_converted(t: TableConfigJson)
    ensures
        t.converted().name == t.name@,
        t.converted().schema is Some <==> t.schema is Some,
        t.schema matches Some(s) ==> t.converted().schema == Some(s@),
        t.converted().primary_key is Some <==> t.primary_key is Some,
        t.primary_key matches Some(k) ==> t.converted().primary_key == Some(k@),
{
}

/// A converted measure keeps its name, column and aggregator.
pub proof fn lemma_measure_converted(m: MeasureConfigJson)
    ensures
        m.converted().name == m.name@,
        m.converted().column == m.column@,
        m.converted().aggregator == m.aggregator,
        m.converted().annotations == annotations_converted(m.annotations),
{
}

/// A converted level keeps its name, key and name columns, key type and
/// properties (name and column of each, in order).
pub proof fn lemma_level_converted(l: LevelConfigJson)
    ensures
        l.converted().name == l.name@,
        l.converted().key_column == l.key_column@,
        l.converted().name_column is Some <==> l.name_column is Some,
        l.name_column matches Some(n) ==> l.converted().name_column == Some(n@),
        l.converted().key_type == l.key_type,
        l.converted().annotations == annotations_converted(l.annotations),
        l.converted().properties is Some <==> l.properties is Some,
        l.properties matches Some(ps) ==> {
            &&& l.converted().properties.unwrap().len() == ps@.len()
            &&& forall|i: int|
                0 <= i < ps@.len() ==> (#[trigger] l.converted().properties.unwrap()[i]).name
                    == ps@[i].name@ && l.converted().properties.unwrap()[i].column
                    == ps@[i].column@ && l.converted().properties.unwrap()[i].annotations
                    == annotations_converted(ps@[i].annotations)
        },
{
}

/// A converted hierarchy keeps its name and its levels in order; its primary
/// key is the configured one, or else the key column of its last level.
pub proof fn lemma_hierarchy_converted(h: HierarchyConfigJson)
    ensures
        h.converted().name == h.name@,
        h.converted().annotations == annotations_converted(h.annotations),
        h.primary_key matches Some(k) ==> h.converted().primary_key == k@,
        h.primary_key is None && h.levels@.len() > 0 ==> h.converted().primary_key
            == h.levels@[h.levels@.len() - 1].key_column@,
        h.converted().levels.len() == h.levels@.len(),
        forall|k: int|
            0 <= k < h.levels@.len() ==> (#[trigger] h.converted().levels[k]).name
                == h.levels@[k].name@ && h.converted().levels[k].key_column
                == h.levels@[k].key_column@,
        h.converted().table is Some <==> h.table is Some,
        h.table matches Some(t) ==> h.converted().table == Some(t.converted()),
{
}

/// A converted dimension keeps its name, foreign key and hierarchies in order.
pub proof fn lemma_dimension_converted(d: DimensionConfigJson)
    ensures
        d.converted().name == d.name@,
        d.converted().foreign_key is Some <==> d.foreign_key is Some,
        d.foreign_key matches Some(k) ==> d.converted().foreign_key == Some(k@),
        d.converted().annotations == annotations_converted(d.annotations),
        d.converted().hierarchies.len() == d.hierarchies@.len(),
        forall|j: int|
            0 <= j < d.hierarchies@.len() ==> #[trigger] d.converted().hierarchies[j]
                == d.hierarchies@[j].converted(),
{
}

/// The dimension that a usage makes of a shared dimension has the shared
/// dimension's name and hierarchies, the usage's foreign key, and both lists
/// of annotations, the shared one first, where both are given (none
/// otherwise).
pub proof fn lemma_usage_dimension(usage: DimensionUsageJson, shared: DimensionConfigJson)
    ensures
        usage.dimension_from(shared).name == shared.name@,
        usage.dimension_from(shared).foreign_key == Some(usage.foreign_key@),
        usage.dimension_from(shared).hierarchies == shared.converted().hierarchies,
        (shared.annotations is Some && usage.annotations is Some) <==> usage.dimension_from(
            shared,
        ).annotations is Some,
        usage.dimension_from(shared).annotations matches Some(a) ==> a
            == annotations_converted(shared.annotations).unwrap() + annotations_converted(
            usage.annotations,
        ).unwrap(),
{
}

/// Each cube of a converted schema keeps its name, table and annotations, and
/// its measures in order, each with its configured name, column and
/// aggregator.
pub proof fn lemma_converted_cube_measures(config: SchemaConfigJson, i: int)
    requires
        0 <= i < config.cubes@.len(),
    ensures
        ({
            let cube = config.converted().cubes[i];
            let cube_config = config.cubes@[i];
            &&& config.converted().cubes.len() == config.cubes@.len()
            &&& cube.name == cube_config.name@
            &&& cube.table == cube_config.table.converted()
            &&& cube.annotations == annotations_converted(cube_config.annotations)
            &&& cube.measures.len() == cube_config.measures@.len()
            &&& forall|j: int|
                0 <= j < cube_config.measures@.len() ==> {
                    &&& (#[trigger] cube.measures[j]).name == cube_config.measures@[j].name@
                    &&& cube.measures[j].column == cube_config.measures@[j].column@
                    &&& cube.measures[j].aggregator == cube_config.measures@[j].aggregator
                }
        }),
{
}

/// A converted schema keeps its name, its annotations and one cube for each
/// configured cube, in order.
pub proof fn lemma_schema_converted(config: SchemaConfigJson)
    ensures
        config.converted().name == config.name@,
        config.converted().annotations == annotations_converted(config.annotations),
        config.converted().cubes.len() == config.cubes@.len(),
        forall|i: int|
            0 <= i < config.cubes@.len() ==> (#[trigger] config.converted().cubes[i]).name
                == config.cubes@[i].name@,
{
}

// ---------------------------------------------------------------------------
// Checking that a configuration can be converted
// ---------------------------------------------------------------------------

impl HierarchyConfigJson {
    pub fn is_convertible(&self) -> (r: bool)
        ensures
            r == self.convertible(),
    {
        self.primary_key.is_some() || self.levels.len() > 0
    }
}

impl DimensionConfigJson {
    pub fn is_convertible(&self) -> (r: bool)
        ensures
            r == self.convertible(),
    {
        let mut j: usize = 0;
        while j < self.hierarchies.len()
            invariant
                j <= self.hierarchies.len(),
                forall|k: int| 0 <= k < j ==> #[trigger] self.hierarchies@[k].convertible(),
            decreases self.hierarchies.len() - j,
        {
            if !self.hierarchies[j].is_convertible() {
                return false;
            }
            j = j + 1;
        }
        true
    }
}

impl CubeConfigJson {
    pub fn is_convertible(&self, shared: &Option<Vec<DimensionConfigJson>>) -> (r: bool)
        ensures
            r == self.convertible(*shared),
    {
        let mut i: usize = 0;
        while i < self.dimensions.len()
            invariant
                i <= self.dimensions.len(),
                forall|k: int| 0 <= k < i ==> #[trigger] self.dimensions@[k].convertible(),
            decreases self.dimensions.len() - i,
        {
            if !self.dimensions[i].is_convertible() {
                return false;
            }
            i = i + 1;
        }
        match (&self.dimension_usages, shared) {
            (Some(us), Some(sh)) => {
                let mut m: usize = 0;
                while m < us.len()
                    invariant
                        self.dimension_usages == Some(*us),
                        *shared == Some(*sh),
                        m <= us.len(),
                        forall|k: int|
                            0 <= k < self.dimensions@.len() ==> #[trigger] self.dimensions@[k].convertible(),
                        forall|a: int, k: int|
                            0 <= a < m && 0 <= k < sh@.len() && #[trigger] sh@[k].name@
                                == #[trigger] us@[a].name@ ==> sh@[k].convertible(),
                    decreases us.len() - m,
                {
                    let mut k: usize = 0;
                    while k < sh.len()
                        invariant
                            self.dimension_usages == Some(*us),
                            *shared == Some(*sh),
                            forall|k: int|
                                0 <= k < self.dimensions@.len() ==> #[trigger] self.dimensions@[k].convertible(),
                            m < us.len(),
                            k <= sh.len(),
                            forall|a: int, k: int|
                                0 <= a < m && 0 <= k < sh@.len() && #[trigger] sh@[k].name@
                                    == #[trigger] us@[a].name@ ==> sh@[k].convertible(),
                            forall|b: int|
                                0 <= b < k && #[trigger] sh@[b].name@ == us@[m as int].name@
                                    ==> sh@[b].convertible(),
                        decreases sh.len() - k,
                    {
                        if sh[k].name == us[m].name && !sh[k].is_convertible() {
                            assert(sh@[k as int].name@ == us@[m as int].name@);
                            assert(!self.convertible(*shared));
                            return false;
                        }
                        k = k + 1;
                    }
                    m = m + 1;
                }
                true
            },
            _ => true,
        }
    }
}

impl SchemaConfigJson {
    /// Whether `Schema::from_config` can convert this configuration: every
    /// hierarchy that it reads has a primary key or a level.
    pub fn is_convertible(&self) -> (r: bool)
        ensures
            r == self.convertible(),
    {
        let mut i: usize = 0;
        while i < self.cubes.len()
            invariant
                i <= self.cubes.len(),
                forall|k: int|
                    0 <= k < i ==> #[trigger] self.cubes@[k].convertible(self.shared_dimensions),
            decreases self.cubes.len() - i,
        {
            if !self.cubes[i].is_convertible(&self.shared_dimensions) {
                return false;
            }
            i = i + 1;
        }
        true
    }
}

} // verus!
