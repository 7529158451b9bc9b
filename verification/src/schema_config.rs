use vstd::prelude::*;

use crate::text::chars_of;

verus! {

broadcast use vstd::string::group_string_axioms;

/// The formats in which a schema file can be written.
#[derive(Debug, Clone, Copy, PartialEq, Eq, Structural)]
pub enum SchemaFormat {
    Xml,
    Json,
}

pub open spec fn ends_with(s: Seq<char>, suffix: Seq<char>) -> bool {
    suffix.len() <= s.len() && s.subrange(s.len() - suffix.len(), s.len() as int) == suffix
}

/// The format of a schema file, by the end of its path: `xml`, then `json`.
pub open spec fn spec_schema_format(path: Seq<char>) -> Option<SchemaFormat> {
    if ends_with(path, "xml"@) {
        Some(SchemaFormat::Xml)
    } else if ends_with(path, "json"@) {
        Some(SchemaFormat::Json)
    } else {
        None
    }
}

fn str_ends_with(s: &str, suffix: &str) -> (r: bool)
    ensures
        r == ends_with(s@, suffix@),
{
    let cs = chars_of(s);
    let ss = chars_of(suffix);
    if ss.len() > cs.len() {
        return false;
    }
    let offset = cs.len() - ss.len();
    let mut i: usize = 0;
    while i < ss.len()
        invariant
            cs@ == s@,
            ss@ == suffix@,
            offset == cs.len() - ss.len(),
            i <= ss.len(),
            forall|k: int| 0 <= k < i ==> #[trigger] ss@[k] == cs@[offset + k],
        decreases ss.len() - i,
    {
        if cs[offset + i] != ss[i] {
            assert(s@.subrange(offset as int, s@.len() as int)[i as int] != suffix@[i as int]);
            return false;
        }
        i = i + 1;
    }
    assert(s@.subrange(offset as int, s@.len() as int) =~= suffix@);
    true
}

/// The format of the schema file at `path`, or `None` where it is not
/// supported.
pub fn schema_format(path: &String) -> (r: Option<SchemaFormat>)
    ensures
        r == spec_schema_format(path@),
{
    if str_ends_with(path.as_str(), "xml") {
        Some(SchemaFormat::Xml)
    } else if str_ends_with(path.as_str(), "json") {
        Some(SchemaFormat::Json)
    } else {
        None
    }
}

/// A path that ends in `xml` names an XML schema; one that ends in `json`
/// names a JSON schema.
pub proof fn lemma_schema_format_by_ending(path: Seq<char>)
    ensures
        spec_schema_format(path + "xml"@) == Some(SchemaFormat::Xml),
        spec_schema_format(path + ".json"@) == Some(SchemaFormat::Json),
{
    reveal_strlit("xml");
    reveal_strlit("json");
    reveal_strlit(".json");
    let x = path + "xml"@;
    assert(x.subrange(x.len() - 3, x.len() as int) =~= "xml"@);
    let j = path + ".json"@;
    assert(j.subrange(j.len() - 4, j.len() as int) =~= "json"@);
    assert(".json"@[4] == 'n');
    assert("xml"@[2] == 'l');
    assert(j.subrange(j.len() - 3, j.len() as int) != "xml"@) by {
        assert(j.subrange(j.len() - 3, j.len() as int)[2] == 'n');
    }
}

/// A path that ends in neither `xml` nor `json` names no supported format.
pub proof fn lemma_schema_format_unsupported(path: Seq<char>)
    requires
        !ends_with(path, "xml"@),
        !ends_with(path, "json"@),
    ensures
        spec_schema_format(path) is None,
{
}

} // verus!
