//! Source classification and format detection: URL versus file path,
//! content-type sniffing for network sources, and file-extension sniffing
//! for local paths. The reads themselves happen outside.
use vstd::prelude::*;
use vstd::string::*;
use crate::strutil::{has_substring, is_prefix_of, contains_sub, starts_with};
use crate::Format;

verus! {

/// What `str::to_lowercase` returns for `s`; the result depends on the
/// characters alone.
pub uninterp spec fn lower_of(s: Seq<char>) -> Seq<char>;

/// Relies on `str::to_lowercase`: Unicode lowercasing of the content-type
/// header before it is matched.
#[verifier::external_body]
fn lowercase(s: &str) -> (r: String)
    ensures
        r@ == lower_of(s@),
{
    s.to_lowercase()
}

/// Whether a source string names a network resource rather than a file.
pub open spec fn spec_is_url(s: Seq<char>) -> bool {
    is_prefix_of("http://"@, s) || is_prefix_of("https://"@, s)
}

/// Whether the source is fetched over HTTP(S) instead of read as a file.
pub fn is_url(s: &str) -> (r: bool)
    ensures
        r == spec_is_url(s@),
{
    starts_with(s, "http://") || starts_with(s, "https://")
}

/// The format a lowercased content-type header denotes: substring match
/// against the known JSON, YAML and CSV media types, else unknown.
pub open spec fn spec_content_type_format(lc: Seq<char>) -> Format {
    if has_substring(lc, "application/json"@) {
        Format::Json
    } else if has_substring(lc, "application/yaml"@) || has_substring(lc, "application/x-yaml"@)
        || has_substring(lc, "text/x-yaml"@) {
        Format::Yaml
    } else if has_substring(lc, "text/csv"@) {
        Format::Csv
    } else {
        Format::Unknown
    }
}

/// Detects the format of a network response from its content-type header,
/// case-insensitively; a missing header means an unknown format.
pub fn content_type_format(ct: Option<&str>) -> (f: Format)
    ensures
        match ct {
            Some(s) => f == spec_content_type_format(lower_of(s@)),
            None => f == Format::Unknown,
        },
{
    match ct {
        Some(s) => {
            let lc = lowercase(s);
            if contains_sub(lc.as_str(), "application/json") {
                Format::Json
            } else if contains_sub(lc.as_str(), "application/yaml") || contains_sub(
                lc.as_str(),
                "application/x-yaml",
            ) || contains_sub(lc.as_str(), "text/x-yaml") {
                Format::Yaml
            } else if contains_sub(lc.as_str(), "text/csv") {
                Format::Csv
            } else {
                Format::Unknown
            }
        },
        None => Format::Unknown,
    }
}

/// Position `d` holds the dot that starts the extension: a dot in the last
/// path component, nothing after it but the extension, and a non-empty
/// stem before it.
pub open spec fn ext_dot_at(s: Seq<char>, d: int) -> bool {
    &&& 1 <= d < s.len()
    &&& s[d] == '.'
    &&& s[d - 1] != '/'
    &&& forall|j: int| d < j < s.len() ==> s[j] != '.' && s[j] != '/'
}

/// The file extension of a path: what follows the last dot of the final
/// component, empty when that component has no dot or only a leading one.
pub open spec fn ext_spec(s: Seq<char>) -> Seq<char> {
    if exists|d: int| ext_dot_at(s, d) {
        s.skip((choose|d: int| ext_dot_at(s, d)) + 1)
    } else {
        Seq::empty()
    }
}

/// Extracts the file extension of a path, used directly as its format tag.
pub fn extension_of(s: &str) -> (r: String)
    ensures
        r@ == ext_spec(s@),
{
    let n = s.unicode_len();
    let mut j: usize = n;
    while j > 0
        invariant
            n == s@.len(),
            j <= n,
            forall|t: int| j <= t < n ==> s@[t] != '.' && s@[t] != '/',
        decreases j,
    {
        let c = s.get_char(j - 1);
        if c == '/' {
            proof {
                assert forall|d: int| !ext_dot_at(s@, d) by {
                    if ext_dot_at(s@, d) {
                        if d < j - 1 {
                            assert(s@[j - 1] == '/');
                        } else {
                            assert(s@[d] != '.');
                        }
                    }
                }
                reveal_strlit("");
                assert(""@ =~= Seq::<char>::empty());
            }
            return "".to_owned();
        }
        if c == '.' {
            if j >= 2 && s.get_char(j - 2) != '/' {
                proof {
                    assert(ext_dot_at(s@, j - 1));
                    let d = choose|d: int| ext_dot_at(s@, d);
                    assert(d == j - 1) by {
                        if d < j - 1 {
                            assert(s@[j - 1] == '.');
                        } else if d > j - 1 {
                            assert(s@[d] != '.');
                        }
                    }
                }
                let r = s.substring_char(j, n);
                proof {
                    assert(r@ =~= ext_spec(s@));
                }
                return r.to_owned();
            } else {
                proof {
                    assert forall|d: int| !ext_dot_at(s@, d) by {
                        if ext_dot_at(s@, d) {
                            if d < j - 1 {
                                assert(s@[j - 1] == '.');
                            } else if d == j - 1 {
                            } else {
                                assert(s@[d] != '.');
                            }
                        }
                    }
                    reveal_strlit("");
                    assert(""@ =~= Seq::<char>::empty());
                }
                return "".to_owned();
            }
        }
        j = j - 1;
    }
    proof {
        assert forall|d: int| !ext_dot_at(s@, d) by {
            if ext_dot_at(s@, d) {
                assert(s@[d] != '.');
            }
        }
        reveal_strlit("");
        assert(""@ =~= Seq::<char>::empty());
    }
    "".to_owned()
}

} // verus!
