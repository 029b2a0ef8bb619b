//! Locale tags: from the value of a locale variable to the tag that names
//! a file of localized text.

use vstd::prelude::*;
use crate::text::decode;

verus! {

/// What `str::to_lowercase` returns for a text.
pub uninterp spec fn lowercase_of(text: Seq<char>) -> Seq<char>;

/// Calls `str::to_lowercase` on the string of these characters. The result
/// is taken to be a function of the characters alone, as the Unicode
/// tables in std fix it; nothing is claimed of its value.
#[verifier::external_body]
fn lowercase(chars: &Vec<char>) -> (r: String)
    ensures
        r@ == lowercase_of(chars@),
{
    let text: String = chars.iter().collect();
    text.to_lowercase()
}

/// A character of a tag: a hyphen for an underscore, else the character.
pub open spec fn hyphenated(c: char) -> char {
    if c == '_' {
        '-'
    } else {
        c
    }
}

/// What stands in `lang` before its first full stop, or all of it where it
/// has none, with a hyphen for every underscore.
pub open spec fn stem_of(lang: Seq<char>) -> Seq<char> {
    match lang.index_of_first('.') {
        Some(n) => lang.take(n).map_values(|c: char| hyphenated(c)),
        None => lang.map_values(|c: char| hyphenated(c)),
    }
}

/// The tag used where no locale is set.
pub open spec fn default_tag() -> Seq<char> {
    "en-us"@
}

/// The part of a locale value before its first full stop, with a hyphen
/// for every underscore.
pub fn tag_stem(lang: &[char]) -> (stem: Vec<char>)
    ensures
        stem@ == stem_of(lang@),
{
    let mut stem: Vec<char> = Vec::new();
    let mut k: usize = 0;
    while k < lang.len() && lang[k] != '.'
        invariant
            k <= lang.len(),
            stem@.len() == k,
            forall|q: int| 0 <= q < k ==> lang@[q] != '.' && stem@[q] == hyphenated(lang@[q]),
        decreases lang.len() - k,
    {
        let c: char = lang[k];
        if c == '_' {
            stem.push('-');
        } else {
            stem.push(c);
        }
        k = k + 1;
    }
    proof {
        lang@.index_of_first_ensures('.');
        if k < lang.len() {
            assert(lang@[k as int] == '.');
            assert(lang@.contains('.'));
            assert(lang@.index_of_first('.') == Some(k as int));
            assert(stem@ =~= lang@.take(k as int).map_values(|c: char| hyphenated(c)));
        } else {
            assert(lang@.index_of_first('.') is None);
            assert(stem@ =~= lang@.map_values(|c: char| hyphenated(c)));
        }
    }
    stem
}

/// The locale tag for the value of the locale variable: the lower case of
/// the value's stem, or the default tag where the variable is not set.
pub fn locale_tag(lang: Option<&str>) -> (tag: String)
    ensures
        tag@ == match lang {
            Some(value) => lowercase_of(stem_of(value@)),
            None => default_tag(),
        },
{
    match lang {
        None => "en-us".to_owned(),
        Some(value) => {
            let chars: Vec<char> = decode(value);
            let stem: Vec<char> = tag_stem(chars.as_slice());
            lowercase(&stem)
        },
    }
}

} // verus!
