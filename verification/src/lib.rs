use vstd::prelude::*;

pub mod decode;
pub mod exporter;
pub mod fetch;
pub mod flatmap;
pub mod flatten;
pub mod gauges;
pub mod laws;
pub mod strutil;
pub mod tree;

verus! {

use crate::strutil::str_eq;

/// Format tag attached to fetched content, deciding which decoder runs.
#[derive(Clone, Copy, PartialEq, Eq, Structural, Debug)]
pub enum Format {
    Json,
    Yaml,
    Csv,
    Unknown,
}

/// Maps a textual format tag to the decoder that handles it.
pub fn format_from_tag(tag: &str) -> (f: Format)
    ensures
        f == spec_format_from_tag(tag@),
{
    if str_eq(tag, "json") {
        Format::Json
    } else if str_eq(tag, "yaml") || str_eq(tag, "yml") {
        Format::Yaml
    } else if str_eq(tag, "csv") {
        Format::Csv
    } else {
        Format::Unknown
    }
}

/// The decoder a format tag names: `json`, `yaml` or `yml`, `csv`;
/// anything else is unsupported.
pub open spec fn spec_format_from_tag(tag: Seq<char>) -> Format {
    if tag == "json"@ {
        Format::Json
    } else if tag == "yaml"@ || tag == "yml"@ {
        Format::Yaml
    } else if tag == "csv"@ {
        Format::Csv
    } else {
        Format::Unknown
    }
}

} // verus!
