//! Format decoders. JSON and YAML content is parsed by its standard parser
//! into the generic document tree and flattened; CSV content contributes the
//! header row paired with the first data row, numeric cells only.
use vstd::prelude::*;
use vstd::string::*;
use crate::flatmap::FlatMap;
use crate::flatten::flatten;
use crate::tree::{apply_pairs, flat_map_of, lemma_apply_pairs_concat, Leaf, LeafV, Tree};

verus! {

#[verifier::external_type_specification]
#[verifier::external_body]
pub struct ExJsonValue(serde_json::Value);

/// The document tree that `serde_json::from_str` parses `s` into, or
/// nothing when `s` is not valid JSON.
pub uninterp spec fn json_tree_of(s: Seq<char>) -> Option<Tree>;

/// The document tree that YAML decoding yields for `s`: parsed by
/// `serde_yaml::from_str`, then normalized through the JSON tree model by
/// `serde_json::to_value`; nothing when either step fails.
pub uninterp spec fn yaml_tree_of(s: Seq<char>) -> Option<Tree>;

/// The header row and first data row that the `csv` reader yields for `s`,
/// or nothing when there is no header row or no first data row.
pub uninterp spec fn csv_head_of(s: Seq<char>) -> Option<(Seq<Seq<char>>, Seq<Seq<char>>)>;

/// Whether `s` is accepted by the standard 64-bit float parse.
pub uninterp spec fn parses_float(s: Seq<char>) -> bool;

/// Relies on `str::parse` to a 64-bit float; `serde_json::Number::from_f64`
/// only anchors the parse target type, its result is discarded.
#[verifier::external_body]
pub fn is_float(s: &str) -> (r: bool)
    ensures
        r == parses_float(s@),
{
    match s.parse() {
        Ok(v) => {
            let _ = serde_json::Number::from_f64(v);
            true
        },
        Err(_) => false,
    }
}

#[verifier::external_type_specification]
#[verifier::external_body]
#[verifier::reject_recursive_types(K)]
#[verifier::reject_recursive_types(V)]
pub struct ExJsonMap<K, V>(serde_json::Map<K, V>);

/// Converts a parsed `serde_json` value into the library's document tree:
/// one arm per variant, numbers carried as their literal text.
#[verifier::external_body]
fn tree_of_value(v: &serde_json::Value) -> Tree {
    match v {
        serde_json::Value::Null => Tree::Leaf(Leaf::Null),
        serde_json::Value::Bool(b) => Tree::Leaf(Leaf::Bool(*b)),
        serde_json::Value::Number(n) => Tree::Leaf(Leaf::Num(n.to_string())),
        serde_json::Value::String(t) => Tree::Leaf(Leaf::Str(t.clone())),
        serde_json::Value::Array(a) => Tree::Arr(trees_of_values(a)),
        serde_json::Value::Object(o) => Tree::Obj(trees_of_entries(o)),
    }
}

/// Converts the elements of a parsed `serde_json` array, in order.
#[verifier::external_body]
fn trees_of_values(a: &Vec<serde_json::Value>) -> Vec<Tree> {
    let mut out: Vec<Tree> = Vec::new();
    for x in a {
        out.push(tree_of_value(x));
    }
    out
}

/// Converts the entries of a parsed `serde_json` object, in order.
#[verifier::external_body]
fn trees_of_entries(o: &serde_json::Map<String, serde_json::Value>) -> Vec<(String, Tree)> {
    let mut out: Vec<(String, Tree)> = Vec::new();
    for (k, x) in o {
        out.push((k.clone(), tree_of_value(x)));
    }
    out
}

/// Relies on `serde_json::from_str`: the JSON document tree of the content.
#[verifier::external_body]
fn parse_json_tree(s: &str) -> (r: Option<Tree>)
    ensures
        r == json_tree_of(s@),
{
    match serde_json::from_str::<serde_json::Value>(s) {
        Ok(v) => Some(tree_of_value(&v)),
        Err(_) => None,
    }
}

/// Relies on `serde_yaml::from_str` and `serde_json::to_value`: the YAML
/// document normalized into the JSON tree model.
#[verifier::external_body]
fn parse_yaml_tree(s: &str) -> (r: Option<Tree>)
    ensures
        r == yaml_tree_of(s@),
{
    match serde_yaml::from_str::<serde_yaml::Value>(s) {
        Ok(y) => match serde_json::to_value(y) {
            Ok(v) => Some(tree_of_value(&v)),
            Err(_) => None,
        },
        Err(_) => None,
    }
}

/// Relies on `csv::ReaderBuilder`, `Reader::headers` and the first entry of
/// `Reader::records`: the header row and first data row of the content.
#[verifier::external_body]
fn read_csv_head(s: &str) -> (r: Option<(Vec<String>, Vec<String>)>)
    ensures
        (r is Some) == (csv_head_of(s@) is Some),
        r matches Some(p) ==> csv_head_of(s@) == Some((p.0.deep_view(), p.1.deep_view())),
{
    let mut rdr = csv::ReaderBuilder::new().has_headers(true).from_reader(s.as_bytes());
    let headers: Vec<String> = match rdr.headers() {
        Ok(h) => h.iter().map(|c| c.to_string()).collect(),
        Err(_) => return None,
    };
    match rdr.records().next() {
        Some(Ok(rec)) => Some((headers, rec.iter().map(|c| c.to_string()).collect())),
        _ => None,
    }
}

/// The (header, numeric cell) pairs among the first `i` columns: cells that
/// do not parse as floats are dropped silently.
pub open spec fn csv_pairs(h: Seq<Seq<char>>, row: Seq<Seq<char>>, i: int) -> Seq<
    (Seq<char>, LeafV),
>
    decreases i,
{
    if i <= 0 {
        Seq::empty()
    } else {
        csv_pairs(h, row, i - 1) + (if parses_float(row[i - 1]) {
            seq![(h[i - 1], LeafV::Num(row[i - 1]))]
        } else {
            Seq::empty()
        })
    }
}

/// The number of columns a CSV row contributes: header and data row paired
/// up to the shorter of the two.
pub open spec fn csv_cols(h: Seq<Seq<char>>, row: Seq<Seq<char>>) -> int {
    if h.len() <= row.len() {
        h.len() as int
    } else {
        row.len() as int
    }
}

/// The flat map of a CSV document's header and first data row.
pub open spec fn csv_flat(h: Seq<Seq<char>>, row: Seq<Seq<char>>) -> Map<Seq<char>, LeafV> {
    apply_pairs(Map::<Seq<char>, LeafV>::empty(), csv_pairs(h, row, csv_cols(h, row)))
}

/// What decoding content `s` under format `f` yields, when it yields.
pub open spec fn decoded_spec(f: crate::Format, s: Seq<char>) -> Option<Map<Seq<char>, LeafV>> {
    match f {
        crate::Format::Json => match json_tree_of(s) {
            Some(t) => Some(flat_map_of(t)),
            None => None,
        },
        crate::Format::Yaml => match yaml_tree_of(s) {
            Some(t) => Some(flat_map_of(t)),
            None => None,
        },
        crate::Format::Csv => match csv_head_of(s) {
            Some(p) => Some(csv_flat(p.0, p.1)),
            None => None,
        },
        crate::Format::Unknown => None,
    }
}

/// Decodes JSON content into its flat map, or nothing on a parse failure.
pub fn decode_json(s: &str) -> (r: Option<FlatMap>)
    ensures
        (r is Some) == (json_tree_of(s@) is Some),
        match r {
            Some(fm) => fm.wf() && match json_tree_of(s@) {
                Some(t) => fm@ == flat_map_of(t),
                None => false,
            },
            None => true,
        },
{
    match parse_json_tree(s) {
        Some(t) => Some(flatten(&t)),
        None => None,
    }
}

/// Decodes YAML content into its flat map through the shared tree model.
pub fn decode_yaml(s: &str) -> (r: Option<FlatMap>)
    ensures
        (r is Some) == (yaml_tree_of(s@) is Some),
        match r {
            Some(fm) => fm.wf() && match yaml_tree_of(s@) {
                Some(t) => fm@ == flat_map_of(t),
                None => false,
            },
            None => true,
        },
{
    match parse_yaml_tree(s) {
        Some(t) => Some(flatten(&t)),
        None => None,
    }
}

/// Decodes CSV content: pairs the header row with the first data row,
/// keeping only cells that parse as floats; later rows are ignored.
pub fn decode_csv(s: &str) -> (r: Option<FlatMap>)
    ensures
        (r is Some) == (csv_head_of(s@) is Some),
        match r {
            Some(fm) => fm.wf() && match csv_head_of(s@) {
                Some(p) => fm@ == csv_flat(p.0, p.1),
                None => false,
            },
            None => true,
        },
{
    let parsed = read_csv_head(s);
    match parsed {
        Some(p) => {
            let (headers, row) = p;
            let ghost hv = headers.deep_view();
            let ghost rv = row.deep_view();
            let hn = headers.len();
            let rn = row.len();
            let n = if hn <= rn {
                hn
            } else {
                rn
            };
            let mut fm = FlatMap::new();
            let mut i: usize = 0;
            while i < n
                invariant
                    n == csv_cols(hv, rv),
                    n <= headers@.len(),
                    n <= row@.len(),
                    hv == headers.deep_view(),
                    rv == row.deep_view(),
                    i <= n,
                    fm.wf(),
                    fm@ == apply_pairs(Map::<Seq<char>, LeafV>::empty(), csv_pairs(hv, rv, i as int)),
                decreases n - i,
            {
                let cell = &row[i];
                let ghost before = fm@;
                if is_float(cell.as_str()) {
                    fm.insert(headers[i].clone(), Leaf::Num(cell.clone()));
                    proof {
                        let single = seq![(hv[i as int], LeafV::Num(rv[i as int]))];
                        lemma_apply_pairs_concat(
                            Map::<Seq<char>, LeafV>::empty(),
                            csv_pairs(hv, rv, i as int),
                            single,
                        );
                        assert(single[0] == (hv[i as int], LeafV::Num(rv[i as int])));
                        assert(single.drop_first() =~= Seq::<(Seq<char>, LeafV)>::empty());
                        assert(apply_pairs(before.insert(hv[i as int], LeafV::Num(rv[i as int])),
                            single.drop_first()) == before.insert(
                            hv[i as int],
                            LeafV::Num(rv[i as int]),
                        ));
                        assert(csv_pairs(hv, rv, i + 1) == csv_pairs(hv, rv, i as int) + single);
                    }
                } else {
                    proof {
                        assert(csv_pairs(hv, rv, i + 1) =~= csv_pairs(hv, rv, i as int));
                    }
                }
                i = i + 1;
            }
            Some(fm)
        },
        None => None,
    }
}

/// Dispatches content to the decoder matching its format tag; an unknown
/// format contributes nothing.
pub fn decode(s: &str, f: crate::Format) -> (r: Option<FlatMap>)
    ensures
        (r is Some) == (decoded_spec(f, s@) is Some),
        match r {
            Some(fm) => fm.wf() && Some(fm@) == decoded_spec(f, s@),
            None => true,
        },
{
    match f {
        crate::Format::Json => decode_json(s),
        crate::Format::Yaml => decode_yaml(s),
        crate::Format::Csv => decode_csv(s),
        crate::Format::Unknown => None,
    }
}

} // verus!
