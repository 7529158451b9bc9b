use vstd::prelude::*;

use crate::error::Error;
use crate::flatten::{
    concat, lemma_concat_index, lemma_concat_locate, lemma_concat_split, lemma_concat_take_all, lemma_concat_take_step,
};
use crate::names::{LevelName, LevelNameView, Measure as MeasureName};
use crate::text::push_char;

verus! {

broadcast use vstd::string::group_string_axioms;

/// Whether the members of a level are text or not.
#[derive(Debug, Clone, Copy, PartialEq, Eq, Structural)]
pub enum MemberType {
    NonText,
    Text,
}

/// How the values of a measure are aggregated.
#[derive(Debug, Clone, Copy, PartialEq, Eq, Structural)]
pub enum Aggregator {
    Sum,
    Count,
    Average,
    Max,
    Min,
}

#[derive(Debug, Clone, PartialEq)]
pub struct Schema {
    pub name: String,
    pub cubes: Vec<Cube>,
    pub annotations: Option<Vec<Annotation>>,
}

#[derive(Debug, Clone, PartialEq)]
pub struct Cube {
    pub name: String,
    pub table: Table,
    pub can_aggregate: bool,
    pub dimensions: Vec<Dimension>,
    pub measures: Vec<Measure>,
    pub annotations: Option<Vec<Annotation>>,
}

#[derive(Debug, Clone, PartialEq)]
pub struct Dimension {
    pub name: String,
    pub foreign_key: Option<String>,
    pub hierarchies: Vec<Hierarchy>,
    pub annotations: Option<Vec<Annotation>>,
}

#[derive(Debug, Clone, PartialEq)]
pub struct Hierarchy {
    pub name: String,
    pub table: Option<Table>,
    pub primary_key: String,
    pub levels: Vec<Level>,
    pub annotations: Option<Vec<Annotation>>,
}

#[derive(Debug, Clone, PartialEq)]
pub struct Level {
    pub name: String,
    pub key_column: String,
    pub name_column: Option<String>,
    pub properties: Option<Vec<Property>>,
    pub key_type: Option<MemberType>,
    pub annotations: Option<Vec<Annotation>>,
}

#[derive(Debug, Clone, PartialEq)]
pub struct Measure {
    pub name: String,
    pub column: String,
    pub aggregator: Aggregator,
    pub annotations: Option<Vec<Annotation>>,
}

#[derive(Debug, Clone, PartialEq)]
pub struct Table {
    pub name: String,
    pub schema: Option<String>,
    pub primary_key: Option<String>,
}

#[derive(Debug, Clone, PartialEq)]
pub struct Property {
    pub name: String,
    pub column: String,
    pub annotations: Option<Vec<Annotation>>,
}

#[derive(Debug, Clone, PartialEq)]
pub struct Annotation {
    pub name: String,
    pub text: String,
}

// ---------------------------------------------------------------------------
// Models
// ---------------------------------------------------------------------------

pub open spec fn opt_str_view(o: Option<String>) -> Option<Seq<char>> {
    match o {
        Some(s) => Some(s@),
        None => None,
    }
}

pub open spec fn opt_view<T: View>(o: Option<T>) -> Option<T::V> {
    match o {
        Some(t) => Some(t@),
        None => None,
    }
}

pub open spec fn vec_view<T: View>(v: Vec<T>) -> Seq<T::V> {
    v@.map_values(|x: T| x@)
}

pub open spec fn opt_vec_view<T: View>(o: Option<Vec<T>>) -> Option<Seq<T::V>> {
    match o {
        Some(v) => Some(vec_view(v)),
        None => None,
    }
}

pub struct SchemaView {
    pub name: Seq<char>,
    pub cubes: Seq<CubeView>,
    pub annotations: Option<Seq<AnnotationView>>,
}

pub struct CubeView {
    pub name: Seq<char>,
    pub table: TableView,
    pub can_aggregate: bool,
    pub dimensions: Seq<DimensionView>,
    pub measures: Seq<MeasureView>,
    pub annotations: Option<Seq<AnnotationView>>,
}

pub struct DimensionView {
    pub name: Seq<char>,
    pub foreign_key: Option<Seq<char>>,
    pub hierarchies: Seq<HierarchyView>,
    pub annotations: Option<Seq<AnnotationView>>,
}

pub struct HierarchyView {
    pub name: Seq<char>,
    pub table: Option<TableView>,
    pub primary_key: Seq<char>,
    pub levels: Seq<LevelView>,
    pub annotations: Option<Seq<AnnotationView>>,
}

pub struct LevelView {
    pub name: Seq<char>,
    pub key_column: Seq<char>,
    pub name_column: Option<Seq<char>>,
    pub properties: Option<Seq<PropertyView>>,
    pub key_type: Option<MemberType>,
    pub annotations: Option<Seq<AnnotationView>>,
}

pub struct MeasureView {
    pub name: Seq<char>,
    pub column: Seq<char>,
    pub aggregator: Aggregator,
    pub annotations: Option<Seq<AnnotationView>>,
}

pub struct TableView {
    pub name: Seq<char>,
    pub schema: Option<Seq<char>>,
    pub primary_key: Option<Seq<char>>,
}

pub struct PropertyView {
    pub name: Seq<char>,
    pub column: Seq<char>,
    pub annotations: Option<Seq<AnnotationView>>,
}

pub struct AnnotationView {
    pub name: Seq<char>,
    pub text: Seq<char>,
}

impl View for Schema {
    type V = SchemaView;

    open spec fn view(&self) -> SchemaView {
        SchemaView {
            name: self.name@,
            cubes: vec_view(self.cubes),
            annotations: opt_vec_view(self.annotations),
        }
    }
}

impl View for Cube {
    type V = CubeView;

    open spec fn view(&self) -> CubeView {
        CubeView {
            name: self.name@,
            table: self.table@,
            can_aggregate: self.can_aggregate,
            dimensions: vec_view(self.dimensions),
            measures: vec_view(self.measures),
            annotations: opt_vec_view(self.annotations),
        }
    }
}

impl View for Dimension {
    type V = DimensionView;

    open spec fn view(&self) -> DimensionView {
        DimensionView {
            name: self.name@,
            foreign_key: opt_str_view(self.foreign_key),
            hierarchies: vec_view(self.hierarchies),
            annotations: opt_vec_view(self.annotations),
        }
    }
}

impl View for Hierarchy {
    type V = HierarchyView;

    open spec fn view(&self) -> HierarchyView {
        HierarchyView {
            name: self.name@,
            table: opt_view(self.table),
            primary_key: self.primary_key@,
            levels: vec_view(self.levels),
            annotations: opt_vec_view(self.annotations),
        }
    }
}

impl View for Level {
    type V = LevelView;

    open spec fn view(&self) -> LevelView {
        LevelView {
            name: self.name@,
            key_column: self.key_column@,
            name_column: opt_str_view(self.name_column),
            properties: opt_vec_view(self.properties),
            key_type: self.key_type,
            annotations: opt_vec_view(self.annotations),
        }
    }
}

impl View for Measure {
    type V = MeasureView;

    open spec fn view(&self) -> MeasureView {
        MeasureView {
            name: self.name@,
            column: self.column@,
            aggregator: self.aggregator,
            annotations: opt_vec_view(self.annotations),
        }
    }
}

impl View for Table {
    type V = TableView;

    open spec fn view(&self) -> TableView {
        TableView {
            name: self.name@,
            schema: opt_str_view(self.schema),
            primary_key: opt_str_view(self.primary_key),
        }
    }
}

impl View for Property {
    type V = PropertyView;

    open spec fn view(&self) -> PropertyView {
        PropertyView {
            name: self.name@,
            column: self.column@,
            annotations: opt_vec_view(self.annotations),
        }
    }
}

impl View for Annotation {
    type V = AnnotationView;

    open spec fn view(&self) -> AnnotationView {
        AnnotationView { name: self.name@, text: self.text@ }
    }
}

// ---------------------------------------------------------------------------
// Level names
// ---------------------------------------------------------------------------

impl HierarchyView {
    /// The names of the levels of this hierarchy, in order, qualified by
    /// `dimension` and the hierarchy's name.
    pub open spec fn level_names(self, dimension: Seq<char>) -> Seq<LevelNameView> {
        Seq::new(
            self.levels.len(),
            |k: int|
                LevelNameView { dimension, hierarchy: self.name, level: self.levels[k].name },
        )
    }
}

impl DimensionView {
    /// The level names of each hierarchy of this dimension.
    pub open spec fn level_name_lists(self) -> Seq<Seq<LevelNameView>> {
        Seq::new(self.hierarchies.len(), |j: int| self.hierarchies[j].level_names(self.name))
    }

    /// The names of all the levels of this dimension, hierarchy by hierarchy.
    pub open spec fn level_names(self) -> Seq<LevelNameView> {
        concat(self.level_name_lists())
    }
}

impl CubeView {
    /// The level names of each dimension of this cube.
    pub open spec fn level_name_lists(self) -> Seq<Seq<LevelNameView>> {
        Seq::new(self.dimensions.len(), |i: int| self.dimensions[i].level_names())
    }

    /// The names of all the levels of this cube: dimension by dimension,
    /// hierarchy by hierarchy, level by level.
    pub open spec fn level_names(self) -> Seq<LevelNameView> {
        concat(self.level_name_lists())
    }

    /// The names of the measures of this cube, in order.
    pub open spec fn measure_names(self) -> Seq<Seq<char>> {
        Seq::new(self.measures.len(), |i: int| self.measures[i].name)
    }
}

fn push_hierarchy_level_names(hierarchy: &Hierarchy, dimension: &String, out: &mut Vec<LevelName>)
    ensures
        vec_view(*final(out)) == vec_view(*old(out)) + hierarchy@.level_names(dimension@),
{
    let ghost start = vec_view(*out);
    let ghost names = hierarchy@.level_names(dimension@);
    let mut k: usize = 0;
    while k < hierarchy.levels.len()
        invariant
            k <= hierarchy.levels.len(),
            names == hierarchy@.level_names(dimension@),
            vec_view(*out) == start + names.take(k as int),
        decreases hierarchy.levels.len() - k,
    {
        let ghost before = vec_view(*out);
        let name = LevelName {
            dimension: dimension.clone(),
            hierarchy: hierarchy.name.clone(),
            level: hierarchy.levels[k].name.clone(),
        };
        out.push(name);
        assert(vec_view(*out) =~= before.push(names[k as int]));
        assert(names.take(k + 1) =~= names.take(k as int).push(names[k as int]));
        k = k + 1;
    }
    assert(names.take(k as int) =~= names);
}

fn push_dimension_level_names(dimension: &Dimension, out: &mut Vec<LevelName>)
    ensures
        vec_view(*final(out)) == vec_view(*old(out)) + dimension@.level_names(),
{
    let ghost start = vec_view(*out);
    let ghost lists = dimension@.level_name_lists();
    let mut j: usize = 0;
    while j < dimension.hierarchies.len()
        invariant
            j <= dimension.hierarchies.len(),
            lists == dimension@.level_name_lists(),
            vec_view(*out) == start + concat(lists.take(j as int)),
        decreases dimension.hierarchies.len() - j,
    {
        let ghost before = vec_view(*out);
        push_hierarchy_level_names(&dimension.hierarchies[j], &dimension.name, out);
        proof {
            lemma_concat_take_step(lists, j as int);
            assert(lists[j as int] == dimension.hierarchies@[j as int]@.level_names(dimension.name@));
            assert(vec_view(*out) =~= start + concat(lists.take(j + 1)));
        }
        j = j + 1;
    }
    proof {
        lemma_concat_take_all(lists);
    }
}

impl Cube {
    /// Returns all the level names of this cube, qualified by their dimension
    /// and hierarchy.
    pub fn get_all_level_names(&self) -> (r: Vec<LevelName>)
        ensures
            vec_view(r) == self@.level_names(),
    {
        let mut names: Vec<LevelName> = Vec::new();
        let ghost lists = self@.level_name_lists();
        let mut i: usize = 0;
        assert(vec_view(names) =~= concat(lists.take(0)));
        while i < self.dimensions.len()
            invariant
                i <= self.dimensions.len(),
                lists == self@.level_name_lists(),
                vec_view(names) == concat(lists.take(i as int)),
            decreases self.dimensions.len() - i,
        {
            push_dimension_level_names(&self.dimensions[i], &mut names);
            proof {
                lemma_concat_take_step(lists, i as int);
            }
            i = i + 1;
        }
        proof {
            lemma_concat_take_all(lists);
        }
        names
    }

    /// Returns the names of all the measures of this cube.
    pub fn get_all_measure_names(&self) -> (r: Vec<MeasureName>)
        ensures
            vec_view(r) == self@.measure_names(),
    {
        let mut names: Vec<MeasureName> = Vec::new();
        let mut i: usize = 0;
        while i < self.measures.len()
            invariant
                i <= self.measures.len(),
                vec_view(names) == self@.measure_names().take(i as int),
            decreases self.measures.len() - i,
        {
            let ghost before = vec_view(names);
            names.push(MeasureName::new(self.measures[i].name.clone()));
            assert(vec_view(names) =~= before.push(self@.measure_names()[i as int]));
            assert(self@.measure_names().take(i + 1) =~= before.push(self@.measure_names()[i as int]));
            i = i + 1;
        }
        assert(self@.measure_names().take(i as int) =~= self@.measure_names());
        names
    }
}


// ---------------------------------------------------------------------------
// Looking up levels and properties
// ---------------------------------------------------------------------------

/// The dimension and hierarchy of the first entry of `names` whose level is
/// `level`, if there is one.
pub open spec fn find_level(names: Seq<LevelNameView>, level: Seq<char>) -> Option<
    (Seq<char>, Seq<char>),
>
    decreases names.len(),
{
    if names.len() == 0 {
        None
    } else if names[0].level == level {
        Some((names[0].dimension, names[0].hierarchy))
    } else {
        find_level(names.drop_first(), level)
    }
}

/// A property qualified by its dimension, hierarchy and level.
pub struct PropertyPathView {
    pub dimension: Seq<char>,
    pub hierarchy: Seq<char>,
    pub level: Seq<char>,
    pub property: Seq<char>,
}

struct PropertyPath {
    dimension: String,
    hierarchy: String,
    level: String,
    property: String,
}

impl View for PropertyPath {
    type V = PropertyPathView;

    closed spec fn view(&self) -> PropertyPathView {
        PropertyPathView {
            dimension: self.dimension@,
            hierarchy: self.hierarchy@,
            level: self.level@,
            property: self.property@,
        }
    }
}

/// The dimension, hierarchy and level of the first entry of `paths` whose
/// property is `property`, if there is one.
pub open spec fn find_property(paths: Seq<PropertyPathView>, property: Seq<char>) -> Option<
    (Seq<char>, Seq<char>, Seq<char>),
>
    decreases paths.len(),
{
    if paths.len() == 0 {
        None
    } else if paths[0].property == property {
        Some((paths[0].dimension, paths[0].hierarchy, paths[0].level))
    } else {
        find_property(paths.drop_first(), property)
    }
}

impl LevelView {
    /// The properties of this level, qualified; none where the level has no
    /// property list.
    pub open spec fn property_paths(self, dimension: Seq<char>, hierarchy: Seq<char>) -> Seq<
        PropertyPathView,
    > {
        match self.properties {
            Some(ps) => Seq::new(
                ps.len(),
                |m: int|
                    PropertyPathView {
                        dimension,
                        hierarchy,
                        level: self.name,
                        property: ps[m].name,
                    },
            ),
            None => Seq::empty(),
        }
    }
}

impl HierarchyView {
    pub open spec fn property_path_lists(self, dimension: Seq<char>) -> Seq<Seq<PropertyPathView>> {
        Seq::new(self.levels.len(), |k: int| self.levels[k].property_paths(dimension, self.name))
    }

    /// The qualified properties of all the levels of this hierarchy, in order.
    pub open spec fn property_paths(self, dimension: Seq<char>) -> Seq<PropertyPathView> {
        concat(self.property_path_lists(dimension))
    }
}

impl DimensionView {
    pub open spec fn property_path_lists(self) -> Seq<Seq<PropertyPathView>> {
        Seq::new(self.hierarchies.len(), |j: int| self.hierarchies[j].property_paths(self.name))
    }

    pub open spec fn property_paths(self) -> Seq<PropertyPathView> {
        concat(self.property_path_lists())
    }
}

impl CubeView {
    pub open spec fn property_path_lists(self) -> Seq<Seq<PropertyPathView>> {
        Seq::new(self.dimensions.len(), |i: int| self.dimensions[i].property_paths())
    }

    /// The qualified properties of all the levels of this cube: dimension by
    /// dimension, hierarchy by hierarchy, level by level.
    pub open spec fn property_paths(self) -> Seq<PropertyPathView> {
        concat(self.property_path_lists())
    }

    /// The dimension and hierarchy that `Cube::identify_level` finds for a level.
    pub open spec fn identify_level(self, level: Seq<char>) -> Option<(Seq<char>, Seq<char>)> {
        find_level(self.level_names(), level)
    }

    /// The dimension, hierarchy and level that `Cube::identify_property` finds
    /// for a property.
    pub open spec fn identify_property(self, property: Seq<char>) -> Option<
        (Seq<char>, Seq<char>, Seq<char>),
    > {
        find_property(self.property_paths(), property)
    }
}

fn push_level_property_paths(
    level: &Level,
    dimension: &String,
    hierarchy: &String,
    out: &mut Vec<PropertyPath>,
)
    ensures
        vec_view(*final(out)) == vec_view(*old(out)) + level@.property_paths(
            dimension@,
            hierarchy@,
        ),
{
    let ghost start = vec_view(*out);
    let ghost paths = level@.property_paths(dimension@, hierarchy@);
    match &level.properties {
        Some(props) => {
            let mut m: usize = 0;
            while m < props.len()
                invariant
                    level.properties == Some(*props),
                    m <= props.len(),
                    paths == level@.property_paths(dimension@, hierarchy@),
                    paths.len() == props.len(),
                    vec_view(*out) == start + paths.take(m as int),
                decreases props.len() - m,
            {
                let ghost before = vec_view(*out);
                let path = PropertyPath {
                    dimension: dimension.clone(),
                    hierarchy: hierarchy.clone(),
                    level: level.name.clone(),
                    property: props[m].name.clone(),
                };
                out.push(path);
                assert(vec_view(*out) =~= before.push(paths[m as int]));
                assert(paths.take(m + 1) =~= paths.take(m as int).push(paths[m as int]));
                m = m + 1;
            }
            assert(paths.take(m as int) =~= paths);
        },
        None => {
            assert(vec_view(*out) =~= start + paths);
        },
    }
}

fn push_hierarchy_property_paths(
    hierarchy: &Hierarchy,
    dimension: &String,
    out: &mut Vec<PropertyPath>,
)
    ensures
        vec_view(*final(out)) == vec_view(*old(out)) + hierarchy@.property_paths(dimension@),
{
    let ghost start = vec_view(*out);
    let ghost lists = hierarchy@.property_path_lists(dimension@);
    let mut k: usize = 0;
    while k < hierarchy.levels.len()
        invariant
            k <= hierarchy.levels.len(),
            lists == hierarchy@.property_path_lists(dimension@),
            vec_view(*out) == start + concat(lists.take(k as int)),
        decreases hierarchy.levels.len() - k,
    {
        push_level_property_paths(&hierarchy.levels[k], dimension, &hierarchy.name, out);
        proof {
            lemma_concat_take_step(lists, k as int);
            assert(vec_view(*out) =~= start + concat(lists.take(k + 1)));
        }
        k = k + 1;
    }
    proof {
        lemma_concat_take_all(lists);
    }
}

fn push_dimension_property_paths(dimension: &Dimension, out: &mut Vec<PropertyPath>)
    ensures
        vec_view(*final(out)) == vec_view(*old(out)) + dimension@.property_paths(),
{
    let ghost start = vec_view(*out);
    let ghost lists = dimension@.property_path_lists();
    let mut j: usize = 0;
    while j < dimension.hierarchies.len()
        invariant
            j <= dimension.hierarchies.len(),
            lists == dimension@.property_path_lists(),
            vec_view(*out) == start + concat(lists.take(j as int)),
        decreases dimension.hierarchies.len() - j,
    {
        push_hierarchy_property_paths(&dimension.hierarchies[j], &dimension.name, out);
        proof {
            lemma_concat_take_step(lists, j as int);
            assert(vec_view(*out) =~= start + concat(lists.take(j + 1)));
        }
        j = j + 1;
    }
    proof {
        lemma_concat_take_all(lists);
    }
}

impl Cube {
    fn all_property_paths(&self) -> (r: Vec<PropertyPath>)
        ensures
            vec_view(r) == self@.property_paths(),
    {
        let mut paths: Vec<PropertyPath> = Vec::new();
        let ghost lists = self@.property_path_lists();
        let mut i: usize = 0;
        assert(vec_view(paths) =~= concat(lists.take(0)));
        while i < self.dimensions.len()
            invariant
                i <= self.dimensions.len(),
                lists == self@.property_path_lists(),
                vec_view(paths) == concat(lists.take(i as int)),
            decreases self.dimensions.len() - i,
        {
            push_dimension_property_paths(&self.dimensions[i], &mut paths);
            proof {
                lemma_concat_take_step(lists, i as int);
            }
            i = i + 1;
        }
        proof {
            lemma_concat_take_all(lists);
        }
        paths
    }

    /// Finds the dimension and hierarchy names for a given level: those of the
    /// first level of that name, in the order of `get_all_level_names`.
    pub fn identify_level(&self, level_name: String) -> (r: Result<(String, String), Error>)
        ensures
            match r {
                Ok((dimension, hierarchy)) => self@.identify_level(level_name@) == Some(
                    (dimension@, hierarchy@),
                ),
                Err(e) => self@.identify_level(level_name@) is None && e == Error::NotFound(
                    level_name,
                ),
            },
    {
        let names = self.get_all_level_names();
        let ghost all = vec_view(names);
        assert(all.skip(0) =~= all);
        let mut i: usize = 0;
        while i < names.len()
            invariant
                i <= names.len(),
                all == vec_view(names),
                all == self@.level_names(),
                find_level(all, level_name@) == find_level(all.skip(i as int), level_name@),
            decreases names.len() - i,
        {
            assert(all.skip(i as int)[0] == all[i as int]);
            assert(all.skip(i as int).drop_first() =~= all.skip(i + 1));
            if names[i].level == level_name {
                return Ok((names[i].dimension.clone(), names[i].hierarchy.clone()));
            }
            i = i + 1;
        }
        assert(all.skip(i as int) =~= Seq::<LevelNameView>::empty());
        Err(Error::NotFound(level_name))
    }

    /// Finds the dimension, hierarchy, and level names for a given property:
    /// those of the first property of that name, level by level.
    pub fn identify_property(&self, property_name: String) -> (r: Result<
        (String, String, String),
        Error,
    >)
        ensures
            match r {
                Ok((dimension, hierarchy, level)) => self@.identify_property(property_name@)
                    == Some((dimension@, hierarchy@, level@)),
                Err(e) => self@.identify_property(property_name@) is None && e
                    == Error::NotFound(property_name),
            },
    {
        let paths = self.all_property_paths();
        let ghost all = vec_view(paths);
        assert(all.skip(0) =~= all);
        let mut i: usize = 0;
        while i < paths.len()
            invariant
                i <= paths.len(),
                all == vec_view(paths),
                all == self@.property_paths(),
                find_property(all, property_name@) == find_property(
                    all.skip(i as int),
                    property_name@,
                ),
            decreases paths.len() - i,
        {
            assert(all.skip(i as int)[0] == all[i as int]);
            assert(all.skip(i as int).drop_first() =~= all.skip(i + 1));
            if paths[i].property == property_name {
                return Ok(
                    (
                        paths[i].dimension.clone(),
                        paths[i].hierarchy.clone(),
                        paths[i].level.clone(),
                    ),
                );
            }
            i = i + 1;
        }
        assert(all.skip(i as int) =~= Seq::<PropertyPathView>::empty());
        Err(Error::NotFound(property_name))
    }
}

// ---------------------------------------------------------------------------
// Which level a lookup finds
// ---------------------------------------------------------------------------

proof fn lemma_find_property_append(a: Seq<PropertyPathView>, b: Seq<PropertyPathView>, p: Seq<char>)
    ensures
        find_property(a + b, p) == (match find_property(a, p) {
            Some(x) => Some(x),
            None => find_property(b, p),
        }),
    decreases a.len(),
{
    if a.len() == 0 {
        assert(a + b =~= b);
    } else {
        assert((a + b)[0] == a[0]);
        assert((a + b).drop_first() =~= a.drop_first() + b);
        lemma_find_property_append(a.drop_first(), b, p);
    }
}

proof fn lemma_find_property_concat_none(lists: Seq<Seq<PropertyPathView>>, p: Seq<char>)
    requires
        forall|i: int| 0 <= i < lists.len() ==> find_property(#[trigger] lists[i], p) is None,
    ensures
        find_property(concat(lists), p) is None,
    decreases lists.len(),
{
    if lists.len() > 0 {
        let init = lists.drop_last();
        assert forall|i: int| 0 <= i < init.len() implies find_property(#[trigger] init[i], p)
            is None by {
            assert(init[i] == lists[i]);
        }
        lemma_find_property_concat_none(init, p);
        assert(lists.last() == lists[lists.len() - 1]);
        lemma_find_property_append(concat(init), lists.last(), p);
    }
}

proof fn lemma_find_property_concat_first(lists: Seq<Seq<PropertyPathView>>, i: int, p: Seq<char>)
    requires
        0 <= i < lists.len(),
        forall|i2: int| 0 <= i2 < i ==> find_property(#[trigger] lists[i2], p) is None,
        find_property(lists[i], p) is Some,
    ensures
        find_property(concat(lists), p) == find_property(lists[i], p),
{
    lemma_concat_split(lists, i);
    let before = lists.take(i);
    assert forall|i2: int| 0 <= i2 < before.len() implies find_property(#[trigger] before[i2], p)
        is None by {
        assert(before[i2] == lists[i2]);
    }
    lemma_find_property_concat_none(before, p);
    lemma_find_property_append(concat(before), lists[i] + concat(lists.skip(i + 1)), p);
    lemma_find_property_append(lists[i], concat(lists.skip(i + 1)), p);
}

proof fn lemma_find_property_uniform(
    s: Seq<PropertyPathView>,
    d: Seq<char>,
    h: Seq<char>,
    l: Seq<char>,
    p: Seq<char>,
)
    requires
        forall|m: int|
            0 <= m < s.len() ==> (#[trigger] s[m]).dimension == d && s[m].hierarchy == h
                && s[m].level == l,
    ensures
        find_property(s, p) == (if exists|m: int| 0 <= m < s.len() && (#[trigger] s[m]).property
            == p {
            Some((d, h, l))
        } else {
            None
        }),
    decreases s.len(),
{
    if s.len() > 0 {
        let t = s.drop_first();
        assert forall|m: int| 0 <= m < t.len() implies (#[trigger] t[m]).dimension == d
            && t[m].hierarchy == h && t[m].level == l by {
            assert(t[m] == s[m + 1]);
        }
        lemma_find_property_uniform(t, d, h, l, p);
        if s[0].property != p {
            if exists|m: int| 0 <= m < s.len() && (#[trigger] s[m]).property == p {
                let m = choose|m: int| 0 <= m < s.len() && (#[trigger] s[m]).property == p;
                assert(t[m - 1] == s[m]);
            }
            if exists|m: int| 0 <= m < t.len() && (#[trigger] t[m]).property == p {
                let m = choose|m: int| 0 <= m < t.len() && (#[trigger] t[m]).property == p;
                assert(s[m + 1] == t[m]);
            }
        }
    }
}

/// Whether the level has a property of the given name.
pub open spec fn level_has_property(level: LevelView, property: Seq<char>) -> bool {
    match level.properties {
        Some(ps) => exists|m: int| 0 <= m < ps.len() && (#[trigger] ps[m]).name == property,
        None => false,
    }
}

proof fn lemma_level_find_property(level: LevelView, d: Seq<char>, h: Seq<char>, p: Seq<char>)
    ensures
        find_property(level.property_paths(d, h), p) == (if level_has_property(level, p) {
            Some((d, h, level.name))
        } else {
            None
        }),
{
    let s = level.property_paths(d, h);
    lemma_find_property_uniform(s, d, h, level.name, p);
    match level.properties {
        Some(ps) => {
            if exists|m: int| 0 <= m < ps.len() && (#[trigger] ps[m]).name == p {
                let m = choose|m: int| 0 <= m < ps.len() && (#[trigger] ps[m]).name == p;
                assert(s[m].property == p);
            }
            if exists|m: int| 0 <= m < s.len() && (#[trigger] s[m]).property == p {
                let m = choose|m: int| 0 <= m < s.len() && (#[trigger] s[m]).property == p;
                assert(ps[m].name == p);
            }
        },
        None => {},
    }
}

proof fn lemma_hierarchy_find_property_none(hierarchy: HierarchyView, d: Seq<char>, p: Seq<char>)
    requires
        forall|k: int|
            0 <= k < hierarchy.levels.len() ==> !level_has_property(
                #[trigger] hierarchy.levels[k],
                p,
            ),
    ensures
        find_property(hierarchy.property_paths(d), p) is None,
{
    let lists = hierarchy.property_path_lists(d);
    assert forall|k: int| 0 <= k < lists.len() implies find_property(#[trigger] lists[k], p)
        is None by {
        lemma_level_find_property(hierarchy.levels[k], d, hierarchy.name, p);
    }
    lemma_find_property_concat_none(lists, p);
}

proof fn lemma_hierarchy_find_property_first(
    hierarchy: HierarchyView,
    d: Seq<char>,
    p: Seq<char>,
    k: int,
)
    requires
        0 <= k < hierarchy.levels.len(),
        level_has_property(hierarchy.levels[k], p),
        forall|k2: int| 0 <= k2 < k ==> !level_has_property(#[trigger] hierarchy.levels[k2], p),
    ensures
        find_property(hierarchy.property_paths(d), p) == Some(
            (d, hierarchy.name, hierarchy.levels[k].name),
        ),
{
    let lists = hierarchy.property_path_lists(d);
    assert forall|k2: int| 0 <= k2 < k implies find_property(#[trigger] lists[k2], p) is None by {
        lemma_level_find_property(hierarchy.levels[k2], d, hierarchy.name, p);
    }
    lemma_level_find_property(hierarchy.levels[k], d, hierarchy.name, p);
    lemma_find_property_concat_first(lists, k, p);
}

proof fn lemma_dimension_find_property_none(dimension: DimensionView, p: Seq<char>)
    requires
        forall|j: int, k: int|
            0 <= j < dimension.hierarchies.len() && 0 <= k
                < dimension.hierarchies[j].levels.len() ==> !level_has_property(
                #[trigger] dimension.hierarchies[j].levels[k],
                p,
            ),
    ensures
        find_property(dimension.property_paths(), p) is None,
{
    let lists = dimension.property_path_lists();
    assert forall|j: int| 0 <= j < lists.len() implies find_property(#[trigger] lists[j], p)
        is None by {
        let h = dimension.hierarchies[j];
        assert forall|k: int| 0 <= k < h.levels.len() implies !level_has_property(
            #[trigger] h.levels[k],
            p,
        ) by {
            assert(h.levels[k] == dimension.hierarchies[j].levels[k]);
        }
        lemma_hierarchy_find_property_none(h, dimension.name, p);
    }
    lemma_find_property_concat_none(lists, p);
}

proof fn lemma_dimension_find_property_first(
    dimension: DimensionView,
    p: Seq<char>,
    j: int,
    k: int,
)
    requires
        0 <= j < dimension.hierarchies.len(),
        0 <= k < dimension.hierarchies[j].levels.len(),
        level_has_property(dimension.hierarchies[j].levels[k], p),
        forall|j2: int, k2: int|
            0 <= j2 < j && 0 <= k2 < dimension.hierarchies[j2].levels.len() ==> !level_has_property(
                #[trigger] dimension.hierarchies[j2].levels[k2],
                p,
            ),
        forall|k2: int|
            0 <= k2 < k ==> !level_has_property(#[trigger] dimension.hierarchies[j].levels[k2], p),
    ensures
        find_property(dimension.property_paths(), p) == Some(
            (
                dimension.name,
                dimension.hierarchies[j].name,
                dimension.hierarchies[j].levels[k].name,
            ),
        ),
{
    let lists = dimension.property_path_lists();
    assert forall|j2: int| 0 <= j2 < j implies find_property(#[trigger] lists[j2], p) is None by {
        let h = dimension.hierarchies[j2];
        assert forall|k2: int| 0 <= k2 < h.levels.len() implies !level_has_property(
            #[trigger] h.levels[k2],
            p,
        ) by {
            assert(h.levels[k2] == dimension.hierarchies[j2].levels[k2]);
        }
        lemma_hierarchy_find_property_none(h, dimension.name, p);
    }
    lemma_hierarchy_find_property_first(dimension.hierarchies[j], dimension.name, p, k);
    lemma_find_property_concat_first(lists, j, p);
}

/// `identify_property` answers with the first level, in the order in which
/// the cube declares its dimensions, their hierarchies and their levels, that
/// has a property of that name.
pub proof fn lemma_identify_property_first(
    cube: CubeView,
    property: Seq<char>,
    i: int,
    j: int,
    k: int,
)
    requires
        0 <= i < cube.dimensions.len(),
        0 <= j < cube.dimensions[i].hierarchies.len(),
        0 <= k < cube.dimensions[i].hierarchies[j].levels.len(),
        level_has_property(cube.dimensions[i].hierarchies[j].levels[k], property),
        forall|i2: int, j2: int, k2: int|
            0 <= i2 < i && 0 <= j2 < cube.dimensions[i2].hierarchies.len() && 0 <= k2
                < cube.dimensions[i2].hierarchies[j2].levels.len() ==> !level_has_property(
                #[trigger] cube.dimensions[i2].hierarchies[j2].levels[k2],
                property,
            ),
        forall|j2: int, k2: int|
            0 <= j2 < j && 0 <= k2 < cube.dimensions[i].hierarchies[j2].levels.len()
                ==> !level_has_property(
                #[trigger] cube.dimensions[i].hierarchies[j2].levels[k2],
                property,
            ),
        forall|k2: int|
            0 <= k2 < k ==> !level_has_property(
                #[trigger] cube.dimensions[i].hierarchies[j].levels[k2],
                property,
            ),
    ensures
        cube.identify_property(property) == Some(
            (
                cube.dimensions[i].name,
                cube.dimensions[i].hierarchies[j].name,
                cube.dimensions[i].hierarchies[j].levels[k].name,
            ),
        ),
{
    let lists = cube.property_path_lists();
    assert forall|i2: int| 0 <= i2 < i implies find_property(#[trigger] lists[i2], property)
        is None by {
        let d = cube.dimensions[i2];
        assert forall|j2: int, k2: int|
            0 <= j2 < d.hierarchies.len() && 0 <= k2 < d.hierarchies[j2].levels.len()
                implies !level_has_property(#[trigger] d.hierarchies[j2].levels[k2], property) by {
            assert(d.hierarchies[j2].levels[k2] == cube.dimensions[i2].hierarchies[j2].levels[k2]);
        }
        lemma_dimension_find_property_none(d, property);
    }
    lemma_dimension_find_property_first(cube.dimensions[i], property, j, k);
    lemma_find_property_concat_first(lists, i, property);
}

/// `identify_property` finds nothing where no level of the cube has a
/// property of that name.
pub proof fn lemma_identify_property_none(cube: CubeView, property: Seq<char>)
    requires
        forall|i: int, j: int, k: int|
            0 <= i < cube.dimensions.len() && 0 <= j < cube.dimensions[i].hierarchies.len() && 0
                <= k < cube.dimensions[i].hierarchies[j].levels.len() ==> !level_has_property(
                #[trigger] cube.dimensions[i].hierarchies[j].levels[k],
                property,
            ),
    ensures
        cube.identify_property(property) is None,
{
    let lists = cube.property_path_lists();
    assert forall|i: int| 0 <= i < lists.len() implies find_property(#[trigger] lists[i], property)
        is None by {
        let d = cube.dimensions[i];
        assert forall|j2: int, k2: int|
            0 <= j2 < d.hierarchies.len() && 0 <= k2 < d.hierarchies[j2].levels.len()
                implies !level_has_property(#[trigger] d.hierarchies[j2].levels[k2], property) by {
            assert(d.hierarchies[j2].levels[k2] == cube.dimensions[i].hierarchies[j2].levels[k2]);
        }
        lemma_dimension_find_property_none(d, property);
    }
    lemma_find_property_concat_none(lists, property);
}

proof fn lemma_find_level_append(a: Seq<LevelNameView>, b: Seq<LevelNameView>, l: Seq<char>)
    ensures
        find_level(a + b, l) == (match find_level(a, l) {
            Some(x) => Some(x),
            None => find_level(b, l),
        }),
    decreases a.len(),
{
    if a.len() == 0 {
        assert(a + b =~= b);
    } else {
        assert((a + b)[0] == a[0]);
        assert((a + b).drop_first() =~= a.drop_first() + b);
        lemma_find_level_append(a.drop_first(), b, l);
    }
}

proof fn lemma_find_level_concat_none(lists: Seq<Seq<LevelNameView>>, l: Seq<char>)
    requires
        forall|i: int| 0 <= i < lists.len() ==> find_level(#[trigger] lists[i], l) is None,
    ensures
        find_level(concat(lists), l) is None,
    decreases lists.len(),
{
    if lists.len() > 0 {
        let init = lists.drop_last();
        assert forall|i: int| 0 <= i < init.len() implies find_level(#[trigger] init[i], l)
            is None by {
            assert(init[i] == lists[i]);
        }
        lemma_find_level_concat_none(init, l);
        assert(lists.last() == lists[lists.len() - 1]);
        lemma_find_level_append(concat(init), lists.last(), l);
    }
}

proof fn lemma_find_level_concat_first(lists: Seq<Seq<LevelNameView>>, i: int, l: Seq<char>)
    requires
        0 <= i < lists.len(),
        forall|i2: int| 0 <= i2 < i ==> find_level(#[trigger] lists[i2], l) is None,
        find_level(lists[i], l) is Some,
    ensures
        find_level(concat(lists), l) == find_level(lists[i], l),
{
    lemma_concat_split(lists, i);
    let before = lists.take(i);
    assert forall|i2: int| 0 <= i2 < before.len() implies find_level(#[trigger] before[i2], l)
        is None by {
        assert(before[i2] == lists[i2]);
    }
    lemma_find_level_concat_none(before, l);
    lemma_find_level_append(concat(before), lists[i] + concat(lists.skip(i + 1)), l);
    lemma_find_level_append(lists[i], concat(lists.skip(i + 1)), l);
}

/// Whether the hierarchy has a level of the given name.
pub open spec fn hierarchy_has_level(hierarchy: HierarchyView, level: Seq<char>) -> bool {
    exists|k: int| 0 <= k < hierarchy.levels.len() && (#[trigger] hierarchy.levels[k]).name == level
}

proof fn lemma_hierarchy_find_level(
    hierarchy: HierarchyView,
    d: Seq<char>,
    l: Seq<char>,
    s: Seq<LevelNameView>,
)
    requires
        s.len() <= hierarchy.levels.len(),
        forall|k: int|
            0 <= k < s.len() ==> #[trigger] s[k] == hierarchy.level_names(d)[k + (
            hierarchy.levels.len() - s.len())],
    ensures
        find_level(s, l) == (if exists|k: int|
            hierarchy.levels.len() - s.len() <= k < hierarchy.levels.len() && (
            #[trigger] hierarchy.levels[k]).name == l {
            Some((d, hierarchy.name))
        } else {
            None
        }),
    decreases s.len(),
{
    let n = hierarchy.levels.len();
    let off = n - s.len();
    if s.len() > 0 {
        let t = s.drop_first();
        assert forall|k: int| 0 <= k < t.len() implies #[trigger] t[k]
            == hierarchy.level_names(d)[k + (n - t.len())] by {
            assert(t[k] == s[k + 1]);
        }
        lemma_hierarchy_find_level(hierarchy, d, l, t);
        assert(s[0] == hierarchy.level_names(d)[off]);
        if s[0].level != l {
            if exists|k: int| off <= k < n && (#[trigger] hierarchy.levels[k]).name == l {
                let k = choose|k: int| off <= k < n && (#[trigger] hierarchy.levels[k]).name == l;
                assert(k != off);
            }
        }
    }
}

proof fn lemma_hierarchy_level_names_find(hierarchy: HierarchyView, d: Seq<char>, l: Seq<char>)
    ensures
        find_level(hierarchy.level_names(d), l) == (if hierarchy_has_level(hierarchy, l) {
            Some((d, hierarchy.name))
        } else {
            None
        }),
{
    lemma_hierarchy_find_level(hierarchy, d, l, hierarchy.level_names(d));
}

proof fn lemma_dimension_find_level_none(dimension: DimensionView, l: Seq<char>)
    requires
        forall|j: int|
            0 <= j < dimension.hierarchies.len() ==> !hierarchy_has_level(
                #[trigger] dimension.hierarchies[j],
                l,
            ),
    ensures
        find_level(dimension.level_names(), l) is None,
{
    let lists = dimension.level_name_lists();
    assert forall|j: int| 0 <= j < lists.len() implies find_level(#[trigger] lists[j], l)
        is None by {
        lemma_hierarchy_level_names_find(dimension.hierarchies[j], dimension.name, l);
    }
    lemma_find_level_concat_none(lists, l);
}

/// `identify_level` answers with the first hierarchy, in the order in which
/// the cube declares its dimensions and their hierarchies, that has a level
/// of that name: its dimension's name and its own.
pub proof fn lemma_identify_level_first(cube: CubeView, level: Seq<char>, i: int, j: int)
    requires
        0 <= i < cube.dimensions.len(),
        0 <= j < cube.dimensions[i].hierarchies.len(),
        hierarchy_has_level(cube.dimensions[i].hierarchies[j], level),
        forall|i2: int, j2: int|
            0 <= i2 < i && 0 <= j2 < cube.dimensions[i2].hierarchies.len() ==> !hierarchy_has_level(
                #[trigger] cube.dimensions[i2].hierarchies[j2],
                level,
            ),
        forall|j2: int|
            0 <= j2 < j ==> !hierarchy_has_level(#[trigger] cube.dimensions[i].hierarchies[j2], level),
    ensures
        cube.identify_level(level) == Some(
            (cube.dimensions[i].name, cube.dimensions[i].hierarchies[j].name),
        ),
{
    let lists = cube.level_name_lists();
    assert forall|i2: int| 0 <= i2 < i implies find_level(#[trigger] lists[i2], level) is None by {
        let d = cube.dimensions[i2];
        assert forall|j2: int| 0 <= j2 < d.hierarchies.len() implies !hierarchy_has_level(
            #[trigger] d.hierarchies[j2],
            level,
        ) by {
            assert(d.hierarchies[j2] == cube.dimensions[i2].hierarchies[j2]);
        }
        lemma_dimension_find_level_none(d, level);
    }
    let d = cube.dimensions[i];
    let dl = d.level_name_lists();
    assert forall|j2: int| 0 <= j2 < j implies find_level(#[trigger] dl[j2], level) is None by {
        lemma_hierarchy_level_names_find(d.hierarchies[j2], d.name, level);
    }
    lemma_hierarchy_level_names_find(d.hierarchies[j], d.name, level);
    lemma_find_level_concat_first(dl, j, level);
    lemma_find_level_concat_first(lists, i, level);
}

/// `identify_level` finds nothing where no hierarchy of the cube has a level
/// of that name.
pub proof fn lemma_identify_level_none(cube: CubeView, level: Seq<char>)
    requires
        forall|i: int, j: int|
            0 <= i < cube.dimensions.len() && 0 <= j < cube.dimensions[i].hierarchies.len()
                ==> !hierarchy_has_level(#[trigger] cube.dimensions[i].hierarchies[j], level),
    ensures
        cube.identify_level(level) is None,
{
    let lists = cube.level_name_lists();
    assert forall|i: int| 0 <= i < lists.len() implies find_level(#[trigger] lists[i], level)
        is None by {
        let d = cube.dimensions[i];
        assert forall|j2: int| 0 <= j2 < d.hierarchies.len() implies !hierarchy_has_level(
            #[trigger] d.hierarchies[j2],
            level,
        ) by {
            assert(d.hierarchies[j2] == cube.dimensions[i].hierarchies[j2]);
        }
        lemma_dimension_find_level_none(d, level);
    }
    lemma_find_level_concat_none(lists, level);
}

/// Every level of the cube is listed by `get_all_level_names`, with its
/// dimension and hierarchy.
pub proof fn lemma_level_names_list_every_level(cube: CubeView, i: int, j: int, k: int)
    requires
        0 <= i < cube.dimensions.len(),
        0 <= j < cube.dimensions[i].hierarchies.len(),
        0 <= k < cube.dimensions[i].hierarchies[j].levels.len(),
    ensures
        cube.level_names().contains(
            LevelNameView {
                dimension: cube.dimensions[i].name,
                hierarchy: cube.dimensions[i].hierarchies[j].name,
                level: cube.dimensions[i].hierarchies[j].levels[k].name,
            },
        ),
{
    let d = cube.dimensions[i];
    let dl = d.level_name_lists();
    lemma_concat_index(dl, j, k);
    let o = concat(dl.take(j)).len() + k;
    lemma_concat_index(cube.level_name_lists(), i, o);
}

/// Every name that `get_all_level_names` lists is that of a level of the cube.
pub proof fn lemma_level_names_only_levels(cube: CubeView, n: int)
    requires
        0 <= n < cube.level_names().len(),
    ensures
        exists|i: int, j: int, k: int|
            0 <= i < cube.dimensions.len() && 0 <= j < cube.dimensions[i].hierarchies.len() && 0
                <= k < cube.dimensions[i].hierarchies[j].levels.len() && cube.level_names()[n] == (
            LevelNameView {
                dimension: cube.dimensions[i].name,
                hierarchy: cube.dimensions[i].hierarchies[j].name,
                level: cube.dimensions[i].hierarchies[j].levels[k].name,
            }),
{
    let lists = cube.level_name_lists();
    let (i, a) = lemma_concat_locate(lists, n);
    let d = cube.dimensions[i];
    let (j, k) = lemma_concat_locate(d.level_name_lists(), a);
    assert(cube.level_names()[n] == LevelNameView {
        dimension: d.name,
        hierarchy: d.hierarchies[j].name,
        level: d.hierarchies[j].levels[k].name,
    });
}

/// In a cube of one dimension and one hierarchy, `get_all_level_names` lists
/// the levels in their order.
pub proof fn lemma_level_names_single_hierarchy(cube: CubeView)
    requires
        cube.dimensions.len() == 1,
        cube.dimensions[0].hierarchies.len() == 1,
    ensures
        cube.level_names() == Seq::new(
            cube.dimensions[0].hierarchies[0].levels.len(),
            |k: int|
                LevelNameView {
                    dimension: cube.dimensions[0].name,
                    hierarchy: cube.dimensions[0].hierarchies[0].name,
                    level: cube.dimensions[0].hierarchies[0].levels[k].name,
                },
        ),
{
    let d = cube.dimensions[0];
    let dl = d.level_name_lists();
    assert(dl.drop_last() =~= Seq::<Seq<LevelNameView>>::empty());
    assert(concat(Seq::<Seq<LevelNameView>>::empty()) == Seq::<LevelNameView>::empty());
    assert(d.level_names() =~= dl[0]);
    let cl = cube.level_name_lists();
    assert(cl.drop_last() =~= Seq::<Seq<LevelNameView>>::empty());
    assert(cube.level_names() =~= cl[0]);
    assert(cube.level_names() =~= Seq::new(
        cube.dimensions[0].hierarchies[0].levels.len(),
        |k: int|
            LevelNameView {
                dimension: cube.dimensions[0].name,
                hierarchy: cube.dimensions[0].hierarchies[0].name,
                level: cube.dimensions[0].hierarchies[0].levels[k].name,
            },
    ));
}

/// `get_all_measure_names` lists the name of each measure, in order.
pub proof fn lemma_measure_names(cube: CubeView)
    ensures
        cube.measure_names().len() == cube.measures.len(),
        forall|i: int|
            0 <= i < cube.measures.len() ==> #[trigger] cube.measure_names()[i]
                == cube.measures[i].name,
{
}

impl TableView {
    /// The name of the table, prefixed by its schema and a dot where it has one.
    pub open spec fn full_name(self) -> Seq<char> {
        match self.schema {
            Some(schema) => schema + seq!['.'] + self.name,
            None => self.name,
        }
    }
}

impl Table {
    /// The table name qualified by its schema: `schema.name`, or `name` alone.
    pub fn full_name(&self) -> (r: String)
        ensures
            r@ == self@.full_name(),
    {
        match &self.schema {
            Some(schema) => {
                let mut r = schema.clone();
                push_char(&mut r, '.');
                r.append(self.name.as_str());
                r
            },
            None => self.name.clone(),
        }
    }
}


proof fn lemma_find_level(names: Seq<LevelNameView>, level: Seq<char>)
    ensures
        find_level(names, level) is None <==> forall|i: int|
            0 <= i < names.len() ==> #[trigger] names[i].level != level,
        find_level(names, level) matches Some((d, h)) ==> names.contains(
            LevelNameView { dimension: d, hierarchy: h, level },
        ),
    decreases names.len(),
{
    if names.len() > 0 {
        lemma_find_level(names.drop_first(), level);
        if names[0].level == level {
            assert(names[0] == LevelNameView {
                dimension: names[0].dimension,
                hierarchy: names[0].hierarchy,
                level,
            });
        } else {
            if find_level(names, level) is None {
                assert forall|i: int| 0 <= i < names.len() implies #[trigger] names[i].level
                    != level by {
                    if i > 0 {
                        assert(names[i] == names.drop_first()[i - 1]);
                    }
                }
            } else {
                let tail = names.drop_first();
                let (d, h) = find_level(names, level).unwrap();
                let e = LevelNameView { dimension: d, hierarchy: h, level };
                let j = choose|j: int| 0 <= j < tail.len() && tail[j] == e;
                assert(names[j + 1] == e);
            }
            if forall|i: int| 0 <= i < names.len() ==> #[trigger] names[i].level != level {
                assert forall|i: int| 0 <= i < names.drop_first().len() implies #[trigger] names.drop_first()[i].level
                    != level by {
                    assert(names.drop_first()[i] == names[i + 1]);
                }
            }
        }
    }
}

/// `identify_level` finds a level exactly when `get_all_level_names` lists a
/// level of that name, and what it finds is one of the names listed.
pub proof fn lemma_identify_level_agrees_with_level_names(cube: CubeView, level: Seq<char>)
    ensures
        cube.identify_level(level) is Some <==> exists|i: int|
            0 <= i < cube.level_names().len() && #[trigger] cube.level_names()[i].level == level,
        cube.identify_level(level) matches Some((d, h)) ==> cube.level_names().contains(
            LevelNameView { dimension: d, hierarchy: h, level },
        ),
{
    lemma_find_level(cube.level_names(), level);
}

proof fn lemma_find_property(paths: Seq<PropertyPathView>, property: Seq<char>)
    ensures
        find_property(paths, property) is None <==> forall|i: int|
            0 <= i < paths.len() ==> #[trigger] paths[i].property != property,
        find_property(paths, property) matches Some((d, h, l)) ==> paths.contains(
            PropertyPathView { dimension: d, hierarchy: h, level: l, property },
        ),
    decreases paths.len(),
{
    if paths.len() > 0 {
        lemma_find_property(paths.drop_first(), property);
        if paths[0].property == property {
            assert(paths[0] == PropertyPathView {
                dimension: paths[0].dimension,
                hierarchy: paths[0].hierarchy,
                level: paths[0].level,
                property,
            });
        } else {
            if find_property(paths, property) is None {
                assert forall|i: int| 0 <= i < paths.len() implies #[trigger] paths[i].property
                    != property by {
                    if i > 0 {
                        assert(paths[i] == paths.drop_first()[i - 1]);
                    }
                }
            } else {
                let tail = paths.drop_first();
                let (d, h, l) = find_property(paths, property).unwrap();
                let e = PropertyPathView { dimension: d, hierarchy: h, level: l, property };
                let j = choose|j: int| 0 <= j < tail.len() && tail[j] == e;
                assert(paths[j + 1] == e);
            }
            if forall|i: int| 0 <= i < paths.len() ==> #[trigger] paths[i].property != property {
                assert forall|i: int| 0 <= i < paths.drop_first().len() implies #[trigger] paths.drop_first()[i].property
                    != property by {
                    assert(paths.drop_first()[i] == paths[i + 1]);
                }
            }
        }
    }
}

/// `identify_property` finds a property exactly when some level of the cube
/// has a property of that name, and what it finds is the qualified place of
/// one such property.
pub proof fn lemma_identify_property_agrees_with_properties(cube: CubeView, property: Seq<char>)
    ensures
        cube.identify_property(property) is Some <==> exists|i: int|
            0 <= i < cube.property_paths().len() && #[trigger] cube.property_paths()[i].property
                == property,
        cube.identify_property(property) matches Some((d, h, l)) ==> cube.property_paths().contains(
            PropertyPathView { dimension: d, hierarchy: h, level: l, property },
        ),
{
    lemma_find_property(cube.property_paths(), property);
}

/// The full name of a table is its schema, a dot and its name, or its name
/// alone where it has no schema.
pub proof fn lemma_full_name(table: TableView)
    ensures
        table.schema matches Some(schema) ==> table.full_name() == schema + seq!['.'] + table.name,
        table.schema is None ==> table.full_name() == table.name,
        table.full_name().len() >= table.name.len(),
        table.full_name().subrange(
            table.full_name().len() - table.name.len(),
            table.full_name().len() as int,
        ) == table.name,
{
    let f = table.full_name();
    assert(f.subrange(f.len() - table.name.len(), f.len() as int) =~= table.name);
}

} // verus!
