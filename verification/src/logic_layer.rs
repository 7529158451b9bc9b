use vstd::prelude::*;

use std::collections::HashMap;

use crate::error::Error;
use crate::schema::{Cube, CubeView};
use crate::text::{
    chars_of, count_char, lemma_split_on_len, lemma_split_on_two, make_member_path, member_path,
    push_char, split_char, split_on, str_is,
};

verus! {

broadcast use vstd::string::group_string_axioms;

/// The state of reading a list argument: whether a `[` is open, the item read
/// so far, and the items finished.
pub struct ArgsScan {
    pub open: bool,
    pub current: Seq<char>,
    pub args: Seq<Seq<char>>,
}

pub open spec fn args_start() -> ArgsScan {
    ArgsScan { open: false, current: Seq::empty(), args: Seq::empty() }
}

/// One character of a list argument: `[` opens an item, `]` closes it, a comma
/// outside brackets is dropped, and every other character joins the item.
pub open spec fn args_step(st: ArgsScan, c: char) -> ArgsScan {
    if c == '[' {
        ArgsScan { open: true, ..st }
    } else if c == ']' {
        ArgsScan { open: false, current: Seq::empty(), args: st.args.push(st.current) }
    } else if c == ',' {
        if st.open {
            ArgsScan { current: st.current.push(c), ..st }
        } else {
            st
        }
    } else {
        ArgsScan { current: st.current.push(c), ..st }
    }
}

pub open spec fn args_scan(st: ArgsScan, s: Seq<char>) -> ArgsScan
    decreases s.len(),
{
    if s.len() == 0 {
        st
    } else {
        args_step(args_scan(st, s.drop_last()), s.last())
    }
}

/// The items of a list argument such as `[a],[b,c]`: the finished items, then
/// the unfinished one if it is not empty.
pub open spec fn spec_deserialize_args(s: Seq<char>) -> Seq<Seq<char>> {
    let st = args_scan(args_start(), s);
    if st.current.len() >= 1 {
        st.args.push(st.current)
    } else {
        st.args
    }
}

/// Splits a list argument such as `[a],[b,c]` into its items.
pub fn deserialize_args(arg: String) -> (r: Vec<String>)
    ensures
        r@.map_values(|a: String| a@) == spec_deserialize_args(arg@),
{
    let chars = chars_of(arg.as_str());
    let mut open = false;
    let mut curr_str = String::new();
    let mut arg_vec: Vec<String> = Vec::new();
    let mut i: usize = 0;
    assert(chars@.take(0) =~= Seq::<char>::empty());
    assert(arg_vec@.map_values(|a: String| a@) =~= Seq::<Seq<char>>::empty());
    while i < chars.len()
        invariant
            i <= chars.len(),
            chars@ == arg@,
            (ArgsScan {
                open,
                current: curr_str@,
                args: arg_vec@.map_values(|a: String| a@),
            }) == args_scan(args_start(), chars@.take(i as int)),
        decreases chars.len() - i,
    {
        let ghost before_args = arg_vec@.map_values(|a: String| a@);
        let c = chars[i];
        assert(chars@.take(i + 1).drop_last() =~= chars@.take(i as int));
        assert(chars@.take(i + 1).last() == c);
        if c == '[' {
            open = true;
        } else if c == ']' {
            let item = curr_str;
            arg_vec.push(item);
            curr_str = String::new();
            open = false;
            assert(arg_vec@.map_values(|a: String| a@) =~= before_args.push(item@));
        } else if c == ',' {
            if open {
                push_char(&mut curr_str, c);
            }
        } else {
            push_char(&mut curr_str, c);
        }
        i = i + 1;
    }
    assert(chars@.take(i as int) =~= arg@);
    if !curr_str.as_str().is_empty() {
        let ghost before_args = arg_vec@.map_values(|a: String| a@);
        let ghost last = curr_str@;
        arg_vec.push(curr_str);
        assert(arg_vec@.map_values(|a: String| a@) =~= before_args.push(last));
    }
    arg_vec
}


/// Neither `[` nor `]` occurs in `s`.
pub open spec fn unbracketed(s: Seq<char>) -> bool {
    !s.contains('[') && !s.contains(']')
}

proof fn lemma_unbracketed_drop_last(s: Seq<char>)
    requires
        s.len() > 0,
        unbracketed(s),
    ensures
        unbracketed(s.drop_last()),
        s.last() != '[' && s.last() != ']',
{
    assert(s[s.len() - 1] == s.last());
    if s.drop_last().contains('[') {
        let i = choose|i: int| 0 <= i < s.drop_last().len() && s.drop_last()[i] == '[';
        assert(s[i] == '[');
    }
    if s.drop_last().contains(']') {
        let i = choose|i: int| 0 <= i < s.drop_last().len() && s.drop_last()[i] == ']';
        assert(s[i] == ']');
    }
}

proof fn lemma_unbracketed_push(s: Seq<char>, c: char)
    requires
        unbracketed(s),
        c != '[' && c != ']',
    ensures
        unbracketed(s.push(c)),
{
    if s.push(c).contains('[') {
        let i = choose|i: int| 0 <= i < s.push(c).len() && s.push(c)[i] == '[';
        if i < s.len() {
            assert(s[i] == '[');
        }
    }
    if s.push(c).contains(']') {
        let i = choose|i: int| 0 <= i < s.push(c).len() && s.push(c)[i] == ']';
        if i < s.len() {
            assert(s[i] == ']');
        }
    }
}

/// Reading `p` then `q` is reading `p + q`.
pub proof fn lemma_args_scan_append(st: ArgsScan, p: Seq<char>, q: Seq<char>)
    ensures
        args_scan(st, p + q) == args_scan(args_scan(st, p), q),
    decreases q.len(),
{
    if q.len() == 0 {
        assert(p + q =~= p);
    } else {
        lemma_args_scan_append(st, p, q.drop_last());
        assert((p + q).drop_last() =~= p + q.drop_last());
        assert((p + q).last() == q.last());
    }
}

/// Inside an open item, characters other than brackets join the item.
proof fn lemma_args_scan_open_item(current: Seq<char>, args: Seq<Seq<char>>, a: Seq<char>)
    requires
        unbracketed(a),
    ensures
        args_scan(ArgsScan { open: true, current, args }, a) == (ArgsScan {
            open: true,
            current: current + a,
            args,
        }),
    decreases a.len(),
{
    if a.len() == 0 {
        assert(current + a =~= current);
    } else {
        lemma_unbracketed_drop_last(a);
        lemma_args_scan_open_item(current, args, a.drop_last());
        assert((current + a.drop_last()).push(a.last()) =~= current + a);
    }
}

/// The items finished before do not change how the rest is read.
proof fn lemma_args_scan_prefix(open: bool, current: Seq<char>, pre: Seq<Seq<char>>, s: Seq<char>)
    ensures
        ({
            let t = args_scan(ArgsScan { open, current, args: Seq::empty() }, s);
            args_scan(ArgsScan { open, current, args: pre }, s) == (ArgsScan {
                open: t.open,
                current: t.current,
                args: pre + t.args,
            })
        }),
    decreases s.len(),
{
    if s.len() == 0 {
        assert(pre + Seq::<Seq<char>>::empty() =~= pre);
    } else {
        lemma_args_scan_prefix(open, current, pre, s.drop_last());
        let t = args_scan(ArgsScan { open, current, args: Seq::empty() }, s.drop_last());
        assert((pre + t.args).push(t.current) =~= pre + t.args.push(t.current));
    }
}

/// A bracketed item at the front of a list argument is its first item, and
/// the rest is read as if alone.
pub proof fn lemma_deserialize_args_bracketed_item(a: Seq<char>, rest: Seq<char>)
    requires
        unbracketed(a),
    ensures
        spec_deserialize_args(seq!['['] + a + seq![']'] + rest) == seq![a]
            + spec_deserialize_args(rest),
{
    let start = args_start();
    let open_item = seq!['['] + a;
    lemma_args_scan_append(start, seq!['['], a);
    assert(seq!['['].drop_last() =~= Seq::<char>::empty());
    assert(args_scan(start, Seq::<char>::empty()) == start);
    assert(seq!['['].last() == '[');
    assert(args_scan(start, seq!['[']) == (ArgsScan {
        open: true,
        current: Seq::empty(),
        args: Seq::empty(),
    }));
    lemma_args_scan_open_item(Seq::empty(), Seq::empty(), a);
    assert(Seq::<char>::empty() + a =~= a);
    let item = open_item + seq![']'];
    assert(item.drop_last() =~= open_item);
    assert(args_scan(start, item) == (ArgsScan {
        open: false,
        current: Seq::empty(),
        args: seq![a],
    })) by {
        assert(Seq::<Seq<char>>::empty().push(a) =~= seq![a]);
    }
    lemma_args_scan_append(start, item, rest);
    lemma_args_scan_prefix(false, Seq::empty(), seq![a], rest);
    let t = args_scan(start, rest);
    assert((seq![a] + t.args).push(t.current) =~= seq![a] + t.args.push(t.current));
}

/// Neither a bracket nor a comma occurs in `s`.
pub open spec fn plain_item(s: Seq<char>) -> bool {
    !s.contains('[') && !s.contains(']') && !s.contains(',')
}

proof fn lemma_plain_item_drop_last(s: Seq<char>)
    requires
        s.len() > 0,
        plain_item(s),
    ensures
        plain_item(s.drop_last()),
        s.last() != '[' && s.last() != ']' && s.last() != ',',
{
    let init = s.drop_last();
    assert(s[s.len() - 1] == s.last());
    if init.contains('[') {
        let i = choose|i: int| 0 <= i < init.len() && init[i] == '[';
        assert(s[i] == '[');
    }
    if init.contains(']') {
        let i = choose|i: int| 0 <= i < init.len() && init[i] == ']';
        assert(s[i] == ']');
    }
    if init.contains(',') {
        let i = choose|i: int| 0 <= i < init.len() && init[i] == ',';
        assert(s[i] == ',');
    }
}

proof fn lemma_args_scan_plain_from(current: Seq<char>, args: Seq<Seq<char>>, s: Seq<char>)
    requires
        plain_item(s),
    ensures
        args_scan(ArgsScan { open: false, current, args }, s) == (ArgsScan {
            open: false,
            current: current + s,
            args,
        }),
    decreases s.len(),
{
    if s.len() == 0 {
        assert(current + s =~= current);
    } else {
        lemma_plain_item_drop_last(s);
        lemma_args_scan_plain_from(current, args, s.drop_last());
        assert((current + s.drop_last()).push(s.last()) =~= current + s);
    }
}

proof fn lemma_args_scan_plain(s: Seq<char>)
    requires
        plain_item(s),
    ensures
        args_scan(args_start(), s) == (ArgsScan { open: false, current: s, args: Seq::empty() }),
{
    lemma_args_scan_plain_from(Seq::empty(), Seq::empty(), s);
    assert(Seq::<char>::empty() + s =~= s);
}

/// Outside brackets a comma separates nothing: `a,b` is the one item `ab`.
pub proof fn lemma_deserialize_args_comma_outside(a: Seq<char>, b: Seq<char>)
    requires
        plain_item(a),
        plain_item(b),
        a.len() + b.len() > 0,
    ensures
        spec_deserialize_args(a + seq![','] + b) == seq![a + b],
{
    let start = args_start();
    lemma_args_scan_plain(a);
    let p = a + seq![','];
    assert(p.drop_last() =~= a);
    assert(p.last() == ',');
    assert(args_scan(start, p) == (ArgsScan { open: false, current: a, args: Seq::empty() }));
    lemma_args_scan_append(start, p, b);
    lemma_args_scan_plain_from(a, Seq::empty(), b);
    assert(Seq::<Seq<char>>::empty().push(a + b) =~= seq![a + b]);
}

/// A list argument without brackets or commas is one item, returned whole
/// (spaces and every other character included); the empty argument has no
/// item.
pub proof fn lemma_deserialize_args_plain(s: Seq<char>)
    requires
        plain_item(s),
    ensures
        s.len() > 0 ==> spec_deserialize_args(s) == seq![s],
        s.len() == 0 ==> spec_deserialize_args(s) == Seq::<Seq<char>>::empty(),
{
    lemma_args_scan_plain(s);
    assert(Seq::<Seq<char>>::empty().push(s) =~= seq![s]);
}

/// A comma at the front of a list argument, outside brackets, is dropped.
pub proof fn lemma_deserialize_args_leading_comma(rest: Seq<char>)
    ensures
        spec_deserialize_args(seq![','] + rest) == spec_deserialize_args(rest),
{
    let start = args_start();
    assert(seq![','].drop_last() =~= Seq::<char>::empty());
    assert(args_scan(start, Seq::<char>::empty()) == start);
    assert(seq![','].last() == ',');
    assert(args_scan(start, seq![',']) == start);
    lemma_args_scan_append(start, seq![','], rest);
}

proof fn lemma_args_scan_unbracketed(s: Seq<char>)
    ensures
        unbracketed(args_scan(args_start(), s).current),
        forall|i: int|
            0 <= i < args_scan(args_start(), s).args.len() ==> unbracketed(
                #[trigger] args_scan(args_start(), s).args[i],
            ),
    decreases s.len(),
{
    if s.len() == 0 {
        assert(!Seq::<char>::empty().contains('['));
        assert(!Seq::<char>::empty().contains(']'));
    } else {
        lemma_args_scan_unbracketed(s.drop_last());
        let st = args_scan(args_start(), s.drop_last());
        let c = s.last();
        if c != '[' && c != ']' {
            lemma_unbracketed_push(st.current, c);
        } else if c == ']' {
            assert(!Seq::<char>::empty().contains('['));
            assert(!Seq::<char>::empty().contains(']'));
            let nargs = st.args.push(st.current);
            assert forall|i: int| 0 <= i < nargs.len() implies unbracketed(#[trigger] nargs[i]) by {
                if i < st.args.len() {
                    assert(nargs[i] == st.args[i]);
                }
            }
        }
    }
}

/// No item of a list argument holds a bracket.
pub proof fn lemma_deserialize_args_items_unbracketed(s: Seq<char>)
    ensures
        forall|i: int|
            0 <= i < spec_deserialize_args(s).len() ==> unbracketed(
                #[trigger] spec_deserialize_args(s)[i],
            ),
{
    lemma_args_scan_unbracketed(s);
    let st = args_scan(args_start(), s);
    if st.current.len() >= 1 {
        let r = st.args.push(st.current);
        assert forall|i: int| 0 <= i < r.len() implies unbracketed(#[trigger] r[i]) by {
            if i < st.args.len() {
                assert(r[i] == st.args[i]);
            }
        }
    }
}


// ---------------------------------------------------------------------------
// Query options
// ---------------------------------------------------------------------------

/// The options of a query, read from the parameters of a request.
#[derive(Debug, Clone)]
pub struct LogicLayerQueryOpt {
    pub cube: String,
    pub drilldowns: Option<Vec<String>>,
    pub cuts: Option<Vec<String>>,
    /// Time precision and value pairs; no precision occurs twice.
    pub time: Option<Vec<(String, String)>>,
    pub measures: Option<Vec<String>>,
    pub properties: Option<Vec<String>>,
    pub filters: Option<Vec<String>>,
    pub parents: Option<bool>,
    pub top: Option<String>,
    pub top_where: Option<String>,
    pub sort: Option<String>,
    pub limit: Option<String>,
    pub growth: Option<String>,
    pub rca: Option<String>,
    pub debug: Option<bool>,
}

/// The query options as they stand in a request, the cuts keyed by level.
#[derive(Debug, Clone)]
pub struct LogicLayerQueryOptTest {
    pub cube: String,
    pub cube_obj: Option<Cube>,
    pub drilldowns: Option<String>,
    pub cuts: Option<HashMap<String, String>>,
    pub time: Option<String>,
    pub measures: Option<String>,
    pub properties: Option<String>,
    pub filters: Option<String>,
    pub parents: Option<bool>,
    pub top: Option<String>,
    pub top_where: Option<String>,
    pub sort: Option<String>,
    pub limit: Option<String>,
    pub growth: Option<String>,
    pub rca: Option<String>,
    pub debug: Option<bool>,
}

pub struct LogicLayerQueryOptView {
    pub cube: Seq<char>,
    pub drilldowns: Option<Seq<Seq<char>>>,
    pub cuts: Option<Seq<Seq<char>>>,
    pub time: Option<Seq<(Seq<char>, Seq<char>)>>,
    pub measures: Option<Seq<Seq<char>>>,
    pub properties: Option<Seq<Seq<char>>>,
    pub filters: Option<Seq<Seq<char>>>,
    pub parents: Option<bool>,
    pub top: Option<Seq<char>>,
    pub top_where: Option<Seq<char>>,
    pub sort: Option<Seq<char>>,
    pub limit: Option<Seq<char>>,
    pub growth: Option<Seq<char>>,
    pub rca: Option<Seq<char>>,
    pub debug: Option<bool>,
}

pub open spec fn strings_view(v: Vec<String>) -> Seq<Seq<char>> {
    v@.map_values(|s: String| s@)
}

pub open spec fn opt_strings_view(o: Option<Vec<String>>) -> Option<Seq<Seq<char>>> {
    match o {
        Some(v) => Some(strings_view(v)),
        None => None,
    }
}

pub open spec fn pairs_view(v: Vec<(String, String)>) -> Seq<(Seq<char>, Seq<char>)> {
    v@.map_values(|p: (String, String)| (p.0@, p.1@))
}

pub open spec fn opt_pairs_view(o: Option<Vec<(String, String)>>) -> Option<
    Seq<(Seq<char>, Seq<char>)>,
> {
    match o {
        Some(v) => Some(pairs_view(v)),
        None => None,
    }
}

pub open spec fn opt_string_view(o: Option<String>) -> Option<Seq<char>> {
    match o {
        Some(s) => Some(s@),
        None => None,
    }
}

impl View for LogicLayerQueryOpt {
    type V = LogicLayerQueryOptView;

    open spec fn view(&self) -> LogicLayerQueryOptView {
        LogicLayerQueryOptView {
            cube: self.cube@,
            drilldowns: opt_strings_view(self.drilldowns),
            cuts: opt_strings_view(self.cuts),
            time: opt_pairs_view(self.time),
            measures: opt_strings_view(self.measures),
            properties: opt_strings_view(self.properties),
            filters: opt_strings_view(self.filters),
            parents: self.parents,
            top: opt_string_view(self.top),
            top_where: opt_string_view(self.top_where),
            sort: opt_string_view(self.sort),
            limit: opt_string_view(self.limit),
            growth: opt_string_view(self.growth),
            rca: opt_string_view(self.rca),
            debug: self.debug,
        }
    }
}

/// The index of the first pair of key `key`, or -1.
pub open spec fn key_index(pairs: Seq<(Seq<char>, Seq<char>)>, key: Seq<char>) -> int
    decreases pairs.len(),
{
    if pairs.len() == 0 {
        -1
    } else if pairs[0].0 == key {
        0
    } else {
        let j = key_index(pairs.drop_first(), key);
        if j < 0 {
            -1
        } else {
            j + 1
        }
    }
}

/// Inserting into a map held as pairs: the value of a present key is replaced,
/// a new key is added at the end.
pub open spec fn pairs_insert(
    pairs: Seq<(Seq<char>, Seq<char>)>,
    key: Seq<char>,
    value: Seq<char>,
) -> Seq<(Seq<char>, Seq<char>)> {
    let i = key_index(pairs, key);
    if i >= 0 {
        pairs.update(i, (key, value))
    } else {
        pairs.push((key, value))
    }
}

proof fn lemma_key_index_range(pairs: Seq<(Seq<char>, Seq<char>)>, key: Seq<char>)
    ensures
        -1 <= key_index(pairs, key) < pairs.len(),
        key_index(pairs, key) >= 0 ==> pairs[key_index(pairs, key)].0 == key,
        key_index(pairs, key) < 0 ==> forall|j: int| 0 <= j < pairs.len() ==> #[trigger] pairs[j].0 != key,
    decreases pairs.len(),
{
    if pairs.len() > 0 {
        lemma_key_index_range(pairs.drop_first(), key);
        if key_index(pairs, key) < 0 {
            assert forall|j: int| 0 <= j < pairs.len() implies #[trigger] pairs[j].0 != key by {
                if j > 0 {
                    assert(pairs[j] == pairs.drop_first()[j - 1]);
                }
            }
        }
    }
}

fn insert_pair(pairs: &mut Vec<(String, String)>, key: String, value: String)
    ensures
        pairs_view(*final(pairs)) == pairs_insert(pairs_view(*old(pairs)), key@, value@),
{
    let ghost start = pairs_view(*pairs);
    let mut i: usize = 0;
    assert(start.skip(0) =~= start);
    while i < pairs.len()
        invariant
            i <= pairs.len(),
            pairs_view(*pairs) == start,
            start == pairs_view(*old(pairs)),
            key_index(start, key@) == (if key_index(start.skip(i as int), key@) < 0 {
                -1
            } else {
                key_index(start.skip(i as int), key@) + i
            }),
        decreases pairs.len() - i,
    {
        assert(start.skip(i as int)[0] == start[i as int]);
        assert(start.skip(i as int).drop_first() =~= start.skip(i + 1));
        if pairs[i].0 == key {
            assert(start[i as int].0 == key@);
            assert(key_index(start.skip(i as int), key@) == 0);
            let ghost k = key@;
            let ghost v = value@;
            assert(key_index(start, k) == i);
            pairs.set(i, (key, value));
            assert(pairs_view(*pairs) =~= start.update(i as int, (k, v)));
            assert(pairs_view(*pairs) == pairs_insert(start, k, v));
            return ;
        }
        i = i + 1;
    }
    assert(start.skip(i as int) =~= Seq::<(Seq<char>, Seq<char>)>::empty());
    let ghost k = key@;
    let ghost v = value@;
    pairs.push((key, value));
    assert(pairs_view(*pairs) =~= start.push((k, v)));
}

/// The member paths `[dimension].[hierarchy].[level]` of the drilldown levels,
/// up to the first level that the cube does not have.
pub open spec fn drilldown_paths(levels: Seq<Seq<char>>, cube: CubeView) -> Seq<Seq<char>>
    decreases levels.len(),
{
    if levels.len() == 0 {
        Seq::empty()
    } else {
        match cube.identify_level(levels[0]) {
            Some((d, h)) => seq![member_path(seq![d, h, levels[0]])] + drilldown_paths(
                levels.drop_first(),
                cube,
            ),
            None => Seq::empty(),
        }
    }
}

/// The member paths `[dimension].[hierarchy].[level].[property]` of the
/// properties, up to the first property that the cube does not have.
pub open spec fn property_member_paths(props: Seq<Seq<char>>, cube: CubeView) -> Seq<Seq<char>>
    decreases props.len(),
{
    if props.len() == 0 {
        Seq::empty()
    } else {
        match cube.identify_property(props[0]) {
            Some((d, h, l)) => seq![member_path(seq![d, h, l, props[0]])] + property_member_paths(
                props.drop_first(),
                cube,
            ),
            None => Seq::empty(),
        }
    }
}

fn drilldowns_of(levels: &Vec<String>, cube: &Cube) -> (r: Vec<String>)
    ensures
        strings_view(r) == drilldown_paths(strings_view(*levels), cube@),
{
    let ghost all = strings_view(*levels);
    let mut r: Vec<String> = Vec::new();
    let mut i: usize = 0;
    assert(all.skip(0) =~= all);
    assert(strings_view(r) + drilldown_paths(all, cube@) =~= drilldown_paths(all, cube@));
    while i < levels.len()
        invariant
            i <= levels.len(),
            all == strings_view(*levels),
            strings_view(r) + drilldown_paths(all.skip(i as int), cube@) == drilldown_paths(
                all,
                cube@,
            ),
        decreases levels.len() - i,
    {
        let ghost rest = all.skip(i as int);
        assert(rest[0] == levels@[i as int]@);
        assert(rest.drop_first() =~= all.skip(i + 1));
        match cube.identify_level(levels[i].clone()) {
            Ok((dimension, hierarchy)) => {
                let ghost before = strings_view(r);
                let mut parts: Vec<String> = Vec::new();
                parts.push(dimension);
                parts.push(hierarchy);
                parts.push(levels[i].clone());
                let path = make_member_path(&parts);
                assert(parts@.map_values(|p: String| p@) =~= seq![
                    parts@[0]@,
                    parts@[1]@,
                    levels@[i as int]@,
                ]);
                r.push(path);
                assert(strings_view(r) =~= before.push(path@));
                assert(before.push(path@) + drilldown_paths(all.skip(i + 1), cube@) =~= before + (
                seq![path@] + drilldown_paths(all.skip(i + 1), cube@)));
            },
            Err(_) => {
                assert(strings_view(r) + drilldown_paths(rest, cube@) =~= strings_view(r));
                return r;
            },
        }
        i = i + 1;
    }
    assert(all.skip(i as int) =~= Seq::<Seq<char>>::empty());
    assert(strings_view(r) + Seq::<Seq<char>>::empty() =~= strings_view(r));
    r
}

fn properties_of(props: &Vec<String>, cube: &Cube) -> (r: Vec<String>)
    ensures
        strings_view(r) == property_member_paths(strings_view(*props), cube@),
{
    let ghost all = strings_view(*props);
    let mut r: Vec<String> = Vec::new();
    let mut i: usize = 0;
    assert(all.skip(0) =~= all);
    assert(strings_view(r) + property_member_paths(all, cube@) =~= property_member_paths(
        all,
        cube@,
    ));
    while i < props.len()
        invariant
            i <= props.len(),
            all == strings_view(*props),
            strings_view(r) + property_member_paths(all.skip(i as int), cube@)
                == property_member_paths(all, cube@),
        decreases props.len() - i,
    {
        let ghost rest = all.skip(i as int);
        assert(rest[0] == props@[i as int]@);
        assert(rest.drop_first() =~= all.skip(i + 1));
        match cube.identify_property(props[i].clone()) {
            Ok((dimension, hierarchy, level)) => {
                let ghost before = strings_view(r);
                let mut parts: Vec<String> = Vec::new();
                parts.push(dimension);
                parts.push(hierarchy);
                parts.push(level);
                parts.push(props[i].clone());
                let path = make_member_path(&parts);
                assert(parts@.map_values(|p: String| p@) =~= seq![
                    parts@[0]@,
                    parts@[1]@,
                    parts@[2]@,
                    props@[i as int]@,
                ]);
                r.push(path);
                assert(strings_view(r) =~= before.push(path@));
                assert(before.push(path@) + property_member_paths(all.skip(i + 1), cube@) =~= before
                    + (seq![path@] + property_member_paths(all.skip(i + 1), cube@)));
            },
            Err(_) => {
                assert(strings_view(r) + property_member_paths(rest, cube@) =~= strings_view(r));
                return r;
            },
        }
        i = i + 1;
    }
    assert(all.skip(i as int) =~= Seq::<Seq<char>>::empty());
    assert(strings_view(r) + Seq::<Seq<char>>::empty() =~= strings_view(r));
    r
}

/// The state of reading the parameters of a request: the options read so far,
/// the time pairs and the cuts, whether a parameter that names no level of
/// the cube has stopped the reading, and whether a bad time has failed it.
pub struct ParamsModel {
    pub query: LogicLayerQueryOptView,
    pub time: Seq<(Seq<char>, Seq<char>)>,
    pub cuts: Seq<Seq<char>>,
    pub stopped: bool,
    pub failed: bool,
}

pub open spec fn params_start() -> ParamsModel {
    ParamsModel {
        query: LogicLayerQueryOptView {
            cube: Seq::empty(),
            drilldowns: None,
            cuts: None,
            time: None,
            measures: None,
            properties: None,
            filters: None,
            parents: None,
            top: None,
            top_where: None,
            sort: None,
            limit: None,
            growth: None,
            rca: None,
            debug: None,
        },
        time: Seq::empty(),
        cuts: Seq::empty(),
        stopped: false,
        failed: false,
    }
}

/// Reading one parameter `key=value`.
pub open spec fn params_step(
    st: ParamsModel,
    key: Seq<char>,
    value: Seq<char>,
    cube: CubeView,
) -> ParamsModel {
    let q = st.query;
    if st.stopped || st.failed {
        st
    } else if key == "cube"@ {
        ParamsModel { query: LogicLayerQueryOptView { cube: value, ..q }, ..st }
    } else if key == "drilldowns"@ {
        ParamsModel {
            query: LogicLayerQueryOptView {
                drilldowns: Some(drilldown_paths(spec_deserialize_args(value), cube)),
                ..q
            },
            ..st
        }
    } else if key == "measures"@ {
        ParamsModel {
            query: LogicLayerQueryOptView { measures: Some(spec_deserialize_args(value)), ..q },
            ..st
        }
    } else if key == "time"@ {
        let ops = split_on(value, '.');
        if ops.len() != 2 {
            ParamsModel { failed: true, ..st }
        } else {
            ParamsModel { time: pairs_insert(st.time, ops[0], ops[1]), ..st }
        }
    } else if key == "properties"@ {
        ParamsModel {
            query: LogicLayerQueryOptView {
                properties: Some(property_member_paths(spec_deserialize_args(value), cube)),
                ..q
            },
            ..st
        }
    } else if key == "parents"@ {
        ParamsModel {
            query: LogicLayerQueryOptView { parents: Some(value == "true"@), ..q },
            ..st
        }
    } else if key == "top"@ {
        ParamsModel { query: LogicLayerQueryOptView { top: Some(value), ..q }, ..st }
    } else if key == "top_where"@ {
        ParamsModel { query: LogicLayerQueryOptView { top_where: Some(value), ..q }, ..st }
    } else if key == "sort"@ {
        ParamsModel { query: LogicLayerQueryOptView { sort: Some(value), ..q }, ..st }
    } else if key == "limit"@ {
        ParamsModel { query: LogicLayerQueryOptView { limit: Some(value), ..q }, ..st }
    } else if key == "growth"@ {
        ParamsModel { query: LogicLayerQueryOptView { growth: Some(value), ..q }, ..st }
    } else if key == "rca"@ {
        ParamsModel { query: LogicLayerQueryOptView { rca: Some(value), ..q }, ..st }
    } else if key == "debug"@ {
        ParamsModel {
            query: LogicLayerQueryOptView { debug: Some(value == "true"@), ..q },
            ..st
        }
    } else {
        match cube.identify_level(key) {
            Some((d, h)) => ParamsModel {
                cuts: st.cuts.push(member_path(seq![d, h, key, value])),
                ..st
            },
            None => ParamsModel { stopped: true, ..st },
        }
    }
}

pub open spec fn params_fold(entries: Seq<(Seq<char>, Seq<char>)>, cube: CubeView) -> ParamsModel
    decreases entries.len(),
{
    if entries.len() == 0 {
        params_start()
    } else {
        let st = params_fold(entries.drop_last(), cube);
        params_step(st, entries.last().0, entries.last().1, cube)
    }
}

/// What reading the parameters `entries`, in this order, gives: the options,
/// with the time pairs and the cuts where there are any; or the error of a
/// time argument without exactly one dot.
pub open spec fn spec_from_params(entries: Seq<(Seq<char>, Seq<char>)>, cube: CubeView) -> Result<
    LogicLayerQueryOptView,
    Error,
> {
    let st = params_fold(entries, cube);
    if st.failed {
        Err(Error::WrongTimeFormat)
    } else {
        Ok(
            LogicLayerQueryOptView {
                time: if st.time.len() >= 1 {
                    Some(st.time)
                } else {
                    None
                },
                cuts: if st.cuts.len() >= 1 {
                    Some(st.cuts)
                } else {
                    None
                },
                ..st.query
            },
        )
    }
}

pub open spec fn query_result_view(r: Result<LogicLayerQueryOpt, Error>) -> Result<
    LogicLayerQueryOptView,
    Error,
> {
    match r {
        Ok(q) => Ok(q@),
        Err(e) => Err(e),
    }
}

/// Once a parameter has stopped or failed the reading, the parameters after
/// it change nothing.
pub proof fn lemma_params_fold_settled(
    entries: Seq<(Seq<char>, Seq<char>)>,
    i: int,
    cube: CubeView,
)
    requires
        0 <= i <= entries.len(),
        params_fold(entries.take(i), cube).stopped || params_fold(entries.take(i), cube).failed,
    ensures
        params_fold(entries, cube) == params_fold(entries.take(i), cube),
    decreases entries.len() - i,
{
    if i == entries.len() {
        assert(entries.take(i) =~= entries);
    } else {
        assert(entries.take(i + 1).drop_last() =~= entries.take(i));
        lemma_params_fold_settled(entries, i + 1, cube);
    }
}

/// How reading one parameter ended.
pub enum ParamOutcome {
    /// The parameter was read.
    Read,
    /// The parameter names no level of the cube: reading stops here.
    Stopped,
    /// A time argument without exactly one dot.
    Failed,
}

/// Reads the parameter `param=value` into the options, time pairs and cuts.
#[verifier::rlimit(40)]
fn read_param(
    q: &mut LogicLayerQueryOpt,
    time_pairs: &mut Vec<(String, String)>,
    cuts_vec: &mut Vec<String>,
    param: &String,
    value: &String,
    cube_obj: &Cube,
) -> (r: ParamOutcome)
    requires
        old(q).cuts is None,
        old(q).time is None,
    ensures
        final(q).cuts is None,
        final(q).time is None,
        ({
            let before = ParamsModel {
                query: old(q)@,
                time: pairs_view(*old(time_pairs)),
                cuts: strings_view(*old(cuts_vec)),
                stopped: false,
                failed: false,
            };
            let after = params_step(before, param@, value@, cube_obj@);
            &&& after.query == final(q)@
            &&& after.time == pairs_view(*final(time_pairs))
            &&& after.cuts == strings_view(*final(cuts_vec))
            &&& after.stopped == (r is Stopped)
            &&& after.failed == (r is Failed)
        }),
{
    if str_is(param, "cube") {
        q.cube = value.clone();
    } else if str_is(param, "drilldowns") {
        let levels = deserialize_args(value.clone());
        q.drilldowns = Some(drilldowns_of(&levels, cube_obj));
    } else if str_is(param, "measures") {
        q.measures = Some(deserialize_args(value.clone()));
    } else if str_is(param, "time") {
        let time_op = split_char(value.as_str(), '.');
        if time_op.len() != 2 {
            return ParamOutcome::Failed;
        }
        insert_pair(time_pairs, time_op[0].clone(), time_op[1].clone());
    } else if str_is(param, "properties") {
        let props = deserialize_args(value.clone());
        q.properties = Some(properties_of(&props, cube_obj));
    } else if str_is(param, "parents") {
        q.parents = Some(str_is(value, "true"));
    } else if str_is(param, "top") {
        q.top = Some(value.clone());
    } else if str_is(param, "top_where") {
        q.top_where = Some(value.clone());
    } else if str_is(param, "sort") {
        q.sort = Some(value.clone());
    } else if str_is(param, "limit") {
        q.limit = Some(value.clone());
    } else if str_is(param, "growth") {
        q.growth = Some(value.clone());
    } else if str_is(param, "rca") {
        q.rca = Some(value.clone());
    } else if str_is(param, "debug") {
        q.debug = Some(str_is(value, "true"));
    } else {
        match cube_obj.identify_level(param.clone()) {
            Ok((dimension, hierarchy)) => {
                let ghost before = strings_view(*cuts_vec);
                let mut parts: Vec<String> = Vec::new();
                parts.push(dimension);
                parts.push(hierarchy);
                parts.push(param.clone());
                parts.push(value.clone());
                let path = make_member_path(&parts);
                assert(parts@.map_values(|p: String| p@) =~= seq![
                    parts@[0]@,
                    parts@[1]@,
                    param@,
                    value@,
                ]);
                cuts_vec.push(path);
                assert(strings_view(*cuts_vec) =~= before.push(path@));
            },
            Err(_) => {
                return ParamOutcome::Stopped;
            },
        }
    }
    ParamOutcome::Read
}

/// What a map of request parameters holds, key by key.
pub uninterp spec fn params_contents(m: HashMap<String, String>) -> Map<Seq<char>, Seq<char>>;

/// `entries` lists the parameters of `m`: each once, in some order.
pub open spec fn lists_params(
    m: Map<Seq<char>, Seq<char>>,
    entries: Seq<(Seq<char>, Seq<char>)>,
) -> bool {
    &&& forall|i: int|
        0 <= i < entries.len() ==> m.contains_key(#[trigger] entries[i].0) && m[entries[i].0]
            == entries[i].1
    &&& forall|k: Seq<char>|
        #[trigger] m.contains_key(k) ==> exists|i: int| 0 <= i < entries.len() && #[trigger] entries[i].0 == k
    &&& forall|i: int, j: int|
        0 <= i < j < entries.len() ==> #[trigger] entries[i].0 != #[trigger] entries[j].0
}

/// `HashMap::iter`, each entry copied: every parameter of the map once, in
/// the order in which the map holds them, which the map's hasher decides and
/// which is therefore not stated.
#[verifier::external_body]
fn params_entries(m: &HashMap<String, String>) -> (r: Vec<(String, String)>)
    ensures
        lists_params(params_contents(*m), pairs_view(r)),
{
    m.iter().map(|(k, v)| (k.clone(), v.clone())).collect()
}

impl LogicLayerQueryOpt {
    /// Splits a list argument such as `[a],[b,c]` into its items.
    pub fn deserialize_args(arg: String) -> (r: Vec<String>)
        ensures
            r@.map_values(|a: String| a@) == spec_deserialize_args(arg@),
    {
        deserialize_args(arg)
    }

    /// Reads the query options from the parameters of a request, taken in the
    /// order given.
    pub fn from_params_entries(entries: &Vec<(String, String)>, cube_obj: &Cube) -> (r: Result<
        LogicLayerQueryOpt,
        Error,
    >)
        ensures
            query_result_view(r) == spec_from_params(pairs_view(*entries), cube_obj@),
    {
        let ghost all = pairs_view(*entries);
        let mut q = LogicLayerQueryOpt {
            cube: String::new(),
            drilldowns: None,
            cuts: None,
            time: None,
            measures: None,
            properties: None,
            filters: None,
            parents: None,
            top: None,
            top_where: None,
            sort: None,
            limit: None,
            growth: None,
            rca: None,
            debug: None,
        };
        let mut time_pairs: Vec<(String, String)> = Vec::new();
        let mut cuts_vec: Vec<String> = Vec::new();
        let mut i: usize = 0;
        assert(all.take(0) =~= Seq::<(Seq<char>, Seq<char>)>::empty());
        assert(all.take(entries.len() as int) =~= all);
        assert(q@ == params_start().query);
        assert(pairs_view(time_pairs) =~= Seq::<(Seq<char>, Seq<char>)>::empty());
        assert(strings_view(cuts_vec) =~= Seq::<Seq<char>>::empty());
        while i < entries.len()
            invariant_except_break
                i <= entries.len(),
                all == pairs_view(*entries),
                all.take(entries.len() as int) == all,
                params_fold(all.take(i as int), cube_obj@) == (ParamsModel {
                    query: q@,
                    time: pairs_view(time_pairs),
                    cuts: strings_view(cuts_vec),
                    stopped: false,
                    failed: false,
                }),
                q.cuts is None,
                q.time is None,
            ensures
                all == pairs_view(*entries),
                params_fold(all, cube_obj@) == (ParamsModel {
                    query: q@,
                    time: pairs_view(time_pairs),
                    cuts: strings_view(cuts_vec),
                    stopped: params_fold(all, cube_obj@).stopped,
                    failed: false,
                }),
                q.cuts is None,
                q.time is None,
            decreases entries.len() - i,
        {
            assert(all.take(i + 1).drop_last() =~= all.take(i as int));
            assert(all.take(i + 1).last() == all[i as int]);
            let outcome = read_param(
                &mut q,
                &mut time_pairs,
                &mut cuts_vec,
                &entries[i].0,
                &entries[i].1,
                cube_obj,
            );
            match outcome {
                ParamOutcome::Read => {},
                ParamOutcome::Stopped => {
                    proof {
                        lemma_params_fold_settled(all, i + 1, cube_obj@);
                    }
                    break ;
                },
                ParamOutcome::Failed => {
                    proof {
                        lemma_params_fold_settled(all, i + 1, cube_obj@);
                    }
                    return Err(Error::WrongTimeFormat);
                },
            }
            i = i + 1;
        }
        if time_pairs.len() >= 1 {
            q.time = Some(time_pairs);
        }
        if cuts_vec.len() >= 1 {
            q.cuts = Some(cuts_vec);
        }
        Ok(q)
    }

    /// Reads the query options from the parameters of a request, in the order
    /// in which the map holds them. That order matters where a parameter names
    /// no level of the cube, which stops the reading, and where a time argument
    /// is given twice.
    pub fn from_params_map(params_map: HashMap<String, String>, cube_obj: Cube) -> (r: Result<
        LogicLayerQueryOpt,
        Error,
    >)
        ensures
            exists|entries: Seq<(Seq<char>, Seq<char>)>|
                lists_params(params_contents(params_map), entries) && query_result_view(r)
                    == spec_from_params(entries, cube_obj@),
    {
        let entries = params_entries(&params_map);
        let r = LogicLayerQueryOpt::from_params_entries(&entries, &cube_obj);
        assert(lists_params(params_contents(params_map), pairs_view(entries)) && query_result_view(
            r,
        ) == spec_from_params(pairs_view(entries), cube_obj@));
        r
    }
}


/// No key occurs twice among `pairs`.
pub open spec fn distinct_keys(pairs: Seq<(Seq<char>, Seq<char>)>) -> bool {
    forall|i: int, j: int| 0 <= i < j < pairs.len() ==> #[trigger] pairs[i].0 != #[trigger] pairs[j].0
}

proof fn lemma_pairs_insert_distinct(
    pairs: Seq<(Seq<char>, Seq<char>)>,
    key: Seq<char>,
    value: Seq<char>,
)
    requires
        distinct_keys(pairs),
    ensures
        distinct_keys(pairs_insert(pairs, key, value)),
{
    lemma_key_index_range(pairs, key);
    let r = pairs_insert(pairs, key, value);
    let ki = key_index(pairs, key);
    assert forall|i: int, j: int| 0 <= i < j < r.len() implies #[trigger] r[i].0 != #[trigger] r[j].0 by {
        if ki >= 0 {
            if i == ki {
                assert(r[j].0 == pairs[j].0);
                assert(pairs[i].0 != pairs[j].0);
            } else if j == ki {
                assert(pairs[i].0 != pairs[j].0);
            } else {
                assert(pairs[i].0 != pairs[j].0);
            }
        } else {
            if j == pairs.len() {
                assert(pairs[i].0 != key);
            } else {
                assert(pairs[i].0 != pairs[j].0);
            }
        }
    }
}

proof fn lemma_params_fold_time_distinct(entries: Seq<(Seq<char>, Seq<char>)>, cube: CubeView)
    ensures
        distinct_keys(params_fold(entries, cube).time),
    decreases entries.len(),
{
    if entries.len() > 0 {
        lemma_params_fold_time_distinct(entries.drop_last(), cube);
        let st = params_fold(entries.drop_last(), cube);
        let ops = split_on(entries.last().1, '.');
        if ops.len() == 2 {
            lemma_pairs_insert_distinct(st.time, ops[0], ops[1]);
        }
    }
}

/// The time argument of the options is a map: no precision occurs twice, a
/// later value for a precision replacing the earlier one.
pub proof fn lemma_from_params_time_is_a_map(entries: Seq<(Seq<char>, Seq<char>)>, cube: CubeView)
    ensures
        spec_from_params(entries, cube) matches Ok(q) ==> (q.time matches Some(t) ==> distinct_keys(
            t,
        )),
{
    lemma_params_fold_time_distinct(entries, cube);
}


// ---------------------------------------------------------------------------
// What single parameters do
// ---------------------------------------------------------------------------

/// The options of a request without parameters: no cube name, no option set.
pub open spec fn empty_request_options() -> LogicLayerQueryOptView {
    LogicLayerQueryOptView {
        cube: Seq::empty(),
        drilldowns: None,
        cuts: None,
        time: None,
        measures: None,
        properties: None,
        filters: None,
        parents: None,
        top: None,
        top_where: None,
        sort: None,
        limit: None,
        growth: None,
        rca: None,
        debug: None,
    }
}

/// A request without parameters gives the empty options.
pub proof fn lemma_no_params(cube: CubeView)
    ensures
        spec_from_params(Seq::empty(), cube) == Ok::<LogicLayerQueryOptView, Error>(
            empty_request_options(),
        ),
{
}

proof fn lemma_one_param(key: Seq<char>, value: Seq<char>, cube: CubeView)
    ensures
        params_fold(seq![(key, value)], cube) == params_step(params_start(), key, value, cube),
{
    let e = seq![(key, value)];
    assert(e.drop_last() =~= Seq::<(Seq<char>, Seq<char>)>::empty());
    assert(params_fold(Seq::<(Seq<char>, Seq<char>)>::empty(), cube) == params_start());
}

/// The names of the options, told apart by their first letter and length.
proof fn lemma_option_name_letters()
    ensures
        "cube"@.len() == 4 && "cube"@[0] == 'c',
        "drilldowns"@.len() == 10 && "drilldowns"@[0] == 'd',
        "measures"@.len() == 8 && "measures"@[0] == 'm',
        "time"@.len() == 4 && "time"@[0] == 't',
        "properties"@.len() == 10 && "properties"@[0] == 'p',
        "parents"@.len() == 7 && "parents"@[0] == 'p',
        "top"@.len() == 3 && "top"@[0] == 't',
        "top_where"@.len() == 9 && "top_where"@[0] == 't',
        "sort"@.len() == 4 && "sort"@[0] == 's',
        "limit"@.len() == 5 && "limit"@[0] == 'l',
        "growth"@.len() == 6 && "growth"@[0] == 'g',
        "rca"@.len() == 3 && "rca"@[0] == 'r',
        "debug"@.len() == 5 && "debug"@[0] == 'd',
{
    reveal_strlit("cube");
    reveal_strlit("drilldowns");
    reveal_strlit("measures");
    reveal_strlit("time");
    reveal_strlit("properties");
    reveal_strlit("parents");
    reveal_strlit("top");
    reveal_strlit("top_where");
    reveal_strlit("sort");
    reveal_strlit("limit");
    reveal_strlit("growth");
    reveal_strlit("rca");
    reveal_strlit("debug");
}

/// Whether `key` names an option rather than a level to cut on.
pub open spec fn is_option_name(key: Seq<char>) -> bool {
    ||| key == "cube"@
    ||| key == "drilldowns"@
    ||| key == "measures"@
    ||| key == "time"@
    ||| key == "properties"@
    ||| key == "parents"@
    ||| key == "top"@
    ||| key == "top_where"@
    ||| key == "sort"@
    ||| key == "limit"@
    ||| key == "growth"@
    ||| key == "rca"@
    ||| key == "debug"@
}

/// The parameter `cube=v` names the cube `v` and sets nothing else.
pub proof fn lemma_cube_param(value: Seq<char>, cube: CubeView)
    ensures
        spec_from_params(seq![("cube"@, value)], cube) == Ok::<LogicLayerQueryOptView, Error>(
            LogicLayerQueryOptView { cube: value, ..empty_request_options() },
        ),
{
    lemma_one_param("cube"@, value, cube);
    lemma_option_name_letters();
}

/// The parameter `top=v` sets the top option to `v` and nothing else.
pub proof fn lemma_top_param(value: Seq<char>, cube: CubeView)
    ensures
        spec_from_params(seq![("top"@, value)], cube) == Ok::<LogicLayerQueryOptView, Error>(
            LogicLayerQueryOptView { top: Some(value), ..empty_request_options() },
        ),
{
    lemma_one_param("top"@, value, cube);
    lemma_option_name_letters();
}

/// The parameter `top_where=v` sets the top_where option to `v` and nothing else.
pub proof fn lemma_top_where_param(value: Seq<char>, cube: CubeView)
    ensures
        spec_from_params(seq![("top_where"@, value)], cube) == Ok::<LogicLayerQueryOptView, Error>(
            LogicLayerQueryOptView { top_where: Some(value), ..empty_request_options() },
        ),
{
    lemma_one_param("top_where"@, value, cube);
    lemma_option_name_letters();
}

/// The parameter `sort=v` sets the sort option to `v` and nothing else.
pub proof fn lemma_sort_param(value: Seq<char>, cube: CubeView)
    ensures
        spec_from_params(seq![("sort"@, value)], cube) == Ok::<LogicLayerQueryOptView, Error>(
            LogicLayerQueryOptView { sort: Some(value), ..empty_request_options() },
        ),
{
    lemma_one_param("sort"@, value, cube);
    lemma_option_name_letters();
}

/// The parameter `limit=v` sets the limit option to `v` and nothing else.
pub proof fn lemma_limit_param(value: Seq<char>, cube: CubeView)
    ensures
        spec_from_params(seq![("limit"@, value)], cube) == Ok::<LogicLayerQueryOptView, Error>(
            LogicLayerQueryOptView { limit: Some(value), ..empty_request_options() },
        ),
{
    lemma_one_param("limit"@, value, cube);
    lemma_option_name_letters();
}

/// The parameter `growth=v` sets the growth option to `v` and nothing else.
pub proof fn lemma_growth_param(value: Seq<char>, cube: CubeView)
    ensures
        spec_from_params(seq![("growth"@, value)], cube) == Ok::<LogicLayerQueryOptView, Error>(
            LogicLayerQueryOptView { growth: Some(value), ..empty_request_options() },
        ),
{
    lemma_one_param("growth"@, value, cube);
    lemma_option_name_letters();
}

/// The parameter `rca=v` sets the rca option to `v` and nothing else.
pub proof fn lemma_rca_param(value: Seq<char>, cube: CubeView)
    ensures
        spec_from_params(seq![("rca"@, value)], cube) == Ok::<LogicLayerQueryOptView, Error>(
            LogicLayerQueryOptView { rca: Some(value), ..empty_request_options() },
        ),
{
    lemma_one_param("rca"@, value, cube);
    lemma_option_name_letters();
}

/// The parameter `parents=v` sets parents, true exactly when `v` is `true`.
pub proof fn lemma_parents_param(value: Seq<char>, cube: CubeView)
    ensures
        spec_from_params(seq![("parents"@, value)], cube) == Ok::<LogicLayerQueryOptView, Error>(
            LogicLayerQueryOptView { parents: Some(value == "true"@), ..empty_request_options() },
        ),
{
    lemma_one_param("parents"@, value, cube);
    lemma_option_name_letters();
}

/// The parameter `debug=v` sets debug, true exactly when `v` is `true`.
pub proof fn lemma_debug_param(value: Seq<char>, cube: CubeView)
    ensures
        spec_from_params(seq![("debug"@, value)], cube) == Ok::<LogicLayerQueryOptView, Error>(
            LogicLayerQueryOptView { debug: Some(value == "true"@), ..empty_request_options() },
        ),
{
    lemma_one_param("debug"@, value, cube);
    lemma_option_name_letters();
}

/// The parameter `measures=v` sets the measures to the items of the list `v`.
pub proof fn lemma_measures_param(value: Seq<char>, cube: CubeView)
    ensures
        spec_from_params(seq![("measures"@, value)], cube) == Ok::<LogicLayerQueryOptView, Error>(
            LogicLayerQueryOptView {
                measures: Some(spec_deserialize_args(value)),
                ..empty_request_options()
            },
        ),
{
    lemma_one_param("measures"@, value, cube);
    lemma_option_name_letters();
}

/// The parameter `drilldowns=v` sets the drilldowns to the member paths of
/// the levels listed in `v`.
pub proof fn lemma_drilldowns_param(value: Seq<char>, cube: CubeView)
    ensures
        spec_from_params(seq![("drilldowns"@, value)], cube) == Ok::<
            LogicLayerQueryOptView,
            Error,
        >(
            LogicLayerQueryOptView {
                drilldowns: Some(drilldown_paths(spec_deserialize_args(value), cube)),
                ..empty_request_options()
            },
        ),
{
    lemma_one_param("drilldowns"@, value, cube);
    lemma_option_name_letters();
}

/// The parameter `properties=v` sets the properties to the member paths of
/// the properties listed in `v`.
pub proof fn lemma_properties_param(value: Seq<char>, cube: CubeView)
    ensures
        spec_from_params(seq![("properties"@, value)], cube) == Ok::<
            LogicLayerQueryOptView,
            Error,
        >(
            LogicLayerQueryOptView {
                properties: Some(property_member_paths(spec_deserialize_args(value), cube)),
                ..empty_request_options()
            },
        ),
{
    lemma_one_param("properties"@, value, cube);
    lemma_option_name_letters();
}

/// The parameter `time=p.v` sets the one time pair `(p, v)`; a time without
/// exactly one dot is refused.
pub proof fn lemma_time_param(precision: Seq<char>, value: Seq<char>, cube: CubeView)
    requires
        !precision.contains('.'),
        !value.contains('.'),
    ensures
        spec_from_params(seq![("time"@, precision + seq!['.'] + value)], cube) == Ok::<
            LogicLayerQueryOptView,
            Error,
        >(LogicLayerQueryOptView { time: Some(seq![(precision, value)]), ..empty_request_options() }),
{
    let raw = precision + seq!['.'] + value;
    lemma_one_param("time"@, raw, cube);
    lemma_option_name_letters();
    lemma_split_on_two(precision, value, '.');
    assert(key_index(Seq::empty(), precision) == -1);
    assert(Seq::<(Seq<char>, Seq<char>)>::empty().push((precision, value)) =~= seq![
        (precision, value),
    ]);
}

/// A time parameter without exactly one dot is refused.
pub proof fn lemma_bad_time_param(raw: Seq<char>, cube: CubeView)
    requires
        count_char(raw, '.') != 1,
    ensures
        spec_from_params(seq![("time"@, raw)], cube) == Err::<LogicLayerQueryOptView, Error>(
            Error::WrongTimeFormat,
        ),
{
    lemma_one_param("time"@, raw, cube);
    lemma_option_name_letters();
    lemma_split_on_len(raw, '.');
}

/// A parameter named after a level of the cube cuts on that level:
/// `[dimension].[hierarchy].[level].[value]`.
pub proof fn lemma_cut_param(key: Seq<char>, value: Seq<char>, cube: CubeView)
    requires
        !is_option_name(key),
        cube.identify_level(key) is Some,
    ensures
        ({
            let (d, h) = cube.identify_level(key).unwrap();
            spec_from_params(seq![(key, value)], cube) == Ok::<LogicLayerQueryOptView, Error>(
                LogicLayerQueryOptView {
                    cuts: Some(seq![member_path(seq![d, h, key, value])]),
                    ..empty_request_options()
                },
            )
        }),
{
    lemma_one_param(key, value, cube);
    let (d, h) = cube.identify_level(key).unwrap();
    assert(Seq::<Seq<char>>::empty().push(member_path(seq![d, h, key, value])) =~= seq![
        member_path(seq![d, h, key, value]),
    ]);
}

/// A parameter that names neither an option nor a level of the cube is
/// ignored, and stops the reading of the parameters after it.
pub proof fn lemma_unknown_param(key: Seq<char>, value: Seq<char>, cube: CubeView)
    requires
        !is_option_name(key),
        cube.identify_level(key) is None,
    ensures
        spec_from_params(seq![(key, value)], cube) == Ok::<LogicLayerQueryOptView, Error>(
            empty_request_options(),
        ),
        params_fold(seq![(key, value)], cube).stopped,
{
    lemma_one_param(key, value, cube);
}

/// The drilldowns are the member paths of the listed levels, in order, up to
/// the first level that the cube does not have.
pub proof fn lemma_drilldown_paths(levels: Seq<Seq<char>>, cube: CubeView)
    ensures
        drilldown_paths(levels, cube).len() <= levels.len(),
        forall|m: int|
            0 <= m < drilldown_paths(levels, cube).len() ==> {
                &&& cube.identify_level(levels[m]) is Some
                &&& #[trigger] drilldown_paths(levels, cube)[m] == member_path(
                    seq![
                        cube.identify_level(levels[m]).unwrap().0,
                        cube.identify_level(levels[m]).unwrap().1,
                        levels[m],
                    ],
                )
            },
        drilldown_paths(levels, cube).len() < levels.len() ==> cube.identify_level(
            levels[drilldown_paths(levels, cube).len() as int],
        ) is None,
    decreases levels.len(),
{
    if levels.len() > 0 {
        let rest = levels.drop_first();
        lemma_drilldown_paths(rest, cube);
        if cube.identify_level(levels[0]) is Some {
            let r = drilldown_paths(levels, cube);
            let t = drilldown_paths(rest, cube);
            assert forall|m: int| 0 < m < r.len() implies r[m] == t[m - 1] && levels[m] == rest[m
                - 1] by {}
        }
    }
}

/// The properties are the member paths of the listed properties, in order,
/// up to the first property that the cube does not have.
pub proof fn lemma_property_member_paths(props: Seq<Seq<char>>, cube: CubeView)
    ensures
        property_member_paths(props, cube).len() <= props.len(),
        forall|m: int|
            0 <= m < property_member_paths(props, cube).len() ==> {
                &&& cube.identify_property(props[m]) is Some
                &&& #[trigger] property_member_paths(props, cube)[m] == member_path(
                    seq![
                        cube.identify_property(props[m]).unwrap().0,
                        cube.identify_property(props[m]).unwrap().1,
                        cube.identify_property(props[m]).unwrap().2,
                        props[m],
                    ],
                )
            },
        property_member_paths(props, cube).len() < props.len() ==> cube.identify_property(
            props[property_member_paths(props, cube).len() as int],
        ) is None,
    decreases props.len(),
{
    if props.len() > 0 {
        let rest = props.drop_first();
        lemma_property_member_paths(rest, cube);
        if cube.identify_property(props[0]) is Some {
            let r = property_member_paths(props, cube);
            let t = property_member_paths(rest, cube);
            assert forall|m: int| 0 < m < r.len() implies r[m] == t[m - 1] && props[m] == rest[m
                - 1] by {}
        }
    }
}

proof fn lemma_params_push(
    entries: Seq<(Seq<char>, Seq<char>)>,
    key: Seq<char>,
    value: Seq<char>,
    cube: CubeView,
)
    ensures
        params_fold(entries.push((key, value)), cube) == params_step(
            params_fold(entries, cube),
            key,
            value,
            cube,
        ),
{
    assert(entries.push((key, value)).drop_last() =~= entries);
}

/// After parameters that have not stopped or failed the reading, a further
/// `sort=v` sets sort to `v` and leaves every other option as it was.
pub proof fn lemma_sort_param_after(
    entries: Seq<(Seq<char>, Seq<char>)>,
    value: Seq<char>,
    cube: CubeView,
)
    requires
        !params_fold(entries, cube).stopped,
        !params_fold(entries, cube).failed,
    ensures
        spec_from_params(entries.push(("sort"@, value)), cube) matches Ok(after) && spec_from_params(
            entries,
            cube,
        ) matches Ok(before) && after == (LogicLayerQueryOptView { sort: Some(value), ..before }),
{
    lemma_params_push(entries, "sort"@, value, cube);
    lemma_option_name_letters();
}

/// After parameters that have not stopped or failed the reading, a further
/// `top_where=v` sets top_where to `v` and leaves every other option as it was.
pub proof fn lemma_top_where_param_after(
    entries: Seq<(Seq<char>, Seq<char>)>,
    value: Seq<char>,
    cube: CubeView,
)
    requires
        !params_fold(entries, cube).stopped,
        !params_fold(entries, cube).failed,
    ensures
        spec_from_params(entries.push(("top_where"@, value)), cube) matches Ok(after)
            && spec_from_params(entries, cube) matches Ok(before) && after == (
        LogicLayerQueryOptView { top_where: Some(value), ..before }),
{
    lemma_params_push(entries, "top_where"@, value, cube);
    lemma_option_name_letters();
}

/// After parameters that have not stopped or failed the reading, a further
/// `cube=v` renames the cube to `v` and leaves every other option as it was.
pub proof fn lemma_cube_param_after(
    entries: Seq<(Seq<char>, Seq<char>)>,
    value: Seq<char>,
    cube: CubeView,
)
    requires
        !params_fold(entries, cube).stopped,
        !params_fold(entries, cube).failed,
    ensures
        spec_from_params(entries.push(("cube"@, value)), cube) matches Ok(after) && spec_from_params(
            entries,
            cube,
        ) matches Ok(before) && after == (LogicLayerQueryOptView { cube: value, ..before }),
{
    lemma_params_push(entries, "cube"@, value, cube);
    lemma_option_name_letters();
}

/// Inserting a pair gives the key the new value, and keeps every other key
/// with its value.
pub proof fn lemma_pairs_insert(
    pairs: Seq<(Seq<char>, Seq<char>)>,
    key: Seq<char>,
    value: Seq<char>,
)
    ensures
        pairs_insert(pairs, key, value).contains((key, value)),
        forall|i: int|
            0 <= i < pairs.len() && (#[trigger] pairs[i]).0 != key ==> pairs_insert(
                pairs,
                key,
                value,
            ).contains(pairs[i]),
        forall|i: int|
            0 <= i < pairs_insert(pairs, key, value).len() && (#[trigger] pairs_insert(
                pairs,
                key,
                value,
            )[i]).0 != key ==> pairs.contains(pairs_insert(pairs, key, value)[i]),
{
    lemma_key_index_range(pairs, key);
    let r = pairs_insert(pairs, key, value);
    let ki = key_index(pairs, key);
    if ki >= 0 {
        assert(r[ki] == (key, value));
        assert forall|i: int| 0 <= i < pairs.len() && (#[trigger] pairs[i]).0 != key implies r.contains(
            pairs[i],
        ) by {
            assert(r[i] == pairs[i]);
        }
        assert forall|i: int| 0 <= i < r.len() && (#[trigger] r[i]).0 != key implies pairs.contains(
            r[i],
        ) by {
            assert(r[i] == pairs[i]);
        }
    } else {
        assert(r[pairs.len() as int] == (key, value));
        assert forall|i: int| 0 <= i < pairs.len() && (#[trigger] pairs[i]).0 != key implies r.contains(
            pairs[i],
        ) by {
            assert(r[i] == pairs[i]);
        }
        assert forall|i: int| 0 <= i < r.len() && (#[trigger] r[i]).0 != key implies pairs.contains(
            r[i],
        ) by {
            assert(r[i] == pairs[i]);
        }
    }
}

} // verus!
