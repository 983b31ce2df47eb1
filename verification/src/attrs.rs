//! The four attribute shapes that the rules interpret, and the regular
//! expression search that recognises them.

use vstd::prelude::*;

verus! {

/// `#[serde(rename = "X")]`
pub const RENAME: &'static str = r#"\[serde\(rename\s*=\s*"(\w+)"\)\]"#;

/// `#[serde(rename_all = "X")]`
pub const RENAME_ALL: &'static str = r#"\[serde\(rename_all\s*=\s*"(\w+)"\)\]"#;

/// `#[serde(with = "X")]`
pub const WITH: &'static str = r#"\[serde\(with\s*=\s*"(\w+)"\)\]"#;

/// `#[serde(skip)]`
pub const SKIP: &'static str = r#"\[serde\s*\(\s*skip\s*\)\s*\]"#;

/// The text of the first capture group in the leftmost match of `pattern` in
/// `haystack`; `None` where the pattern does not compile, where it matches
/// nowhere, or where the group takes no part in the match.
pub uninterp spec fn regex_group(pattern: Seq<char>, haystack: Seq<char>) -> Option<Seq<char>>;

/// Whether `pattern` compiles and matches somewhere in `haystack`.
pub uninterp spec fn regex_matches(pattern: Seq<char>, haystack: Seq<char>) -> bool;

/// `lazy_regex::Regex::new`, `Regex::captures` and `Captures::get`: compiles
/// the pattern, searches the haystack for its leftmost match and hands out the
/// part of the haystack that the first capture group matched. The contract
/// names that result; it claims nothing of what the result is.
#[verifier::external_body]
pub(crate) fn capture_group<'a>(pattern: &str, haystack: &'a str) -> (r: Option<&'a str>)
    ensures
        crate::model::opt_str_text(r) == regex_group(pattern@, haystack@),
{
    match lazy_regex::Regex::new(pattern) {
        Ok(re) => match re.captures(haystack) {
            Some(caps) => match caps.get(1) {
                Some(group) => Some(group.as_str()),
                None => None,
            },
            None => None,
        },
        Err(_) => None,
    }
}

/// `lazy_regex::Regex::new` and `Regex::is_match`: compiles the pattern and
/// tells whether it matches anywhere in the haystack. The contract names that
/// result; it claims nothing of what the result is.
#[verifier::external_body]
pub(crate) fn is_match(pattern: &str, haystack: &str) -> (r: bool)
    ensures
        r == regex_matches(pattern@, haystack@),
{
    match lazy_regex::Regex::new(pattern) {
        Ok(re) => re.is_match(haystack),
        Err(_) => false,
    }
}

/// The capture of the first attribute in which `pattern` captures anything.
pub open spec fn first_capture(pattern: Seq<char>, attrs: Seq<Seq<char>>) -> Option<Seq<char>>
    decreases attrs.len(),
{
    if attrs.len() == 0 {
        None
    } else {
        match regex_group(pattern, attrs.first()) {
            Some(found) => Some(found),
            None => first_capture(pattern, attrs.drop_first()),
        }
    }
}

/// The capture of the last attribute in which `pattern` captures anything.
pub open spec fn last_capture(pattern: Seq<char>, attrs: Seq<Seq<char>>) -> Option<Seq<char>>
    decreases attrs.len(),
{
    if attrs.len() == 0 {
        None
    } else {
        match regex_group(pattern, attrs.last()) {
            Some(found) => Some(found),
            None => last_capture(pattern, attrs.drop_last()),
        }
    }
}

/// Whether `pattern` matches in one of the attributes.
pub open spec fn any_match(pattern: Seq<char>, attrs: Seq<Seq<char>>) -> bool {
    exists|i: int| 0 <= i < attrs.len() && regex_matches(pattern, #[trigger] attrs[i])
}

/// Searches the attributes front to back and returns the first capture.
pub fn find_first_capture<'a>(pattern: &str, attrs: &'a Vec<String>) -> (r: Option<&'a str>)
    ensures
        crate::model::opt_str_text(r) == first_capture(pattern@, crate::model::texts(attrs@)),
{
    let ghost all = crate::model::texts(attrs@);
    let mut i: usize = 0;
    proof {
        assert(all.skip(0) == all);
    }
    while i < attrs.len()
        invariant
            i <= attrs.len(),
            all == crate::model::texts(attrs@),
            first_capture(pattern@, all) == first_capture(pattern@, all.skip(i as int)),
        decreases attrs.len() - i,
    {
        let found = capture_group(pattern, attrs[i].as_str());
        proof {
            assert(all.skip(i as int).first() == attrs@[i as int]@);
            assert(all.skip(i as int).drop_first() == all.skip(i as int + 1));
        }
        if found.is_some() {
            return found;
        }
        i += 1;
    }
    proof {
        assert(all.skip(i as int).len() == 0);
    }
    None
}

/// Searches the attributes back to front and returns the first capture met.
pub fn find_last_capture<'a>(pattern: &str, attrs: &'a Vec<String>) -> (r: Option<&'a str>)
    ensures
        crate::model::opt_str_text(r) == last_capture(pattern@, crate::model::texts(attrs@)),
{
    let ghost all = crate::model::texts(attrs@);
    let mut i: usize = attrs.len();
    proof {
        assert(all.take(i as int) == all);
    }
    while i > 0
        invariant
            i <= attrs.len(),
            all == crate::model::texts(attrs@),
            last_capture(pattern@, all) == last_capture(pattern@, all.take(i as int)),
        decreases i,
    {
        let found = capture_group(pattern, attrs[i - 1].as_str());
        proof {
            assert(all.take(i as int).last() == attrs@[i as int - 1]@);
            assert(all.take(i as int).drop_last() == all.take(i as int - 1));
        }
        if found.is_some() {
            return found;
        }
        i -= 1;
    }
    proof {
        assert(all.take(i as int).len() == 0);
    }
    None
}

/// Whether `pattern` matches in one of the attributes.
pub fn matches_any(pattern: &str, attrs: &Vec<String>) -> (r: bool)
    ensures
        r == any_match(pattern@, crate::model::texts(attrs@)),
{
    let ghost all = crate::model::texts(attrs@);
    let mut i: usize = 0;
    while i < attrs.len()
        invariant
            i <= attrs.len(),
            all == crate::model::texts(attrs@),
            forall|k: int| 0 <= k < i ==> !regex_matches(pattern@, #[trigger] all[k]),
        decreases attrs.len() - i,
    {
        if is_match(pattern, attrs[i].as_str()) {
            proof {
                assert(regex_matches(pattern@, all[i as int]));
            }
            return true;
        }
        i += 1;
    }
    false
}

} // verus!
