//! The list of accepted file formats: a comma-separated text such as
//! `png,SVG` read into icon types.

use vstd::prelude::*;
use crate::icon::IconType;
use crate::model::views;
use crate::text::{chars_of, spells, split, split_chars, string_of};

verus! {

/// The lowercase equivalent of a text as the standard library computes it.
pub uninterp spec fn lowercase(s: Seq<char>) -> Seq<char>;

/// The lowercase equivalent of `s`.
///
/// Trusted: `str::to_lowercase`. The result follows the Unicode rules for
/// lowercase, which no short formula states; the contract only gives it a
/// name, so that equal texts are known to have equal results.
#[verifier::external_body]
pub(crate) fn to_lowercase(s: &str) -> (r: String)
    ensures
        r@ == lowercase(s@),
{
    s.to_lowercase()
}

/// The format that a lower-case word selects.
pub open spec fn format_named(word: Seq<char>) -> Option<IconType> {
    if word == "png"@ {
        Some(IconType::PNG)
    } else if word == "svg"@ {
        Some(IconType::SVG)
    } else if word == "xmp"@ {
        Some(IconType::XMP)
    } else {
        None
    }
}

/// The formats that a sequence of lower-case words selects, or the first
/// word that selects none.
pub open spec fn formats_of(words: Seq<Seq<char>>) -> Result<Seq<IconType>, Seq<char>>
    decreases words.len(),
{
    if words.len() == 0 {
        Ok(Seq::empty())
    } else {
        match formats_of(words.drop_last()) {
            Err(word) => Err(word),
            Ok(formats) => match format_named(words.last()) {
                Some(format) => Ok(formats.push(format)),
                None => Err(words.last()),
            },
        }
    }
}

/// Each item in lower case.
pub open spec fn lowered(items: Seq<Seq<char>>) -> Seq<Seq<char>> {
    Seq::new(items.len(), |i: int| lowercase(items[i]))
}

/// What a format list denotes: the formats of its comma-separated items,
/// each taken in lower case, or the first item (in lower case) that is no
/// format.
pub open spec fn format_list(list: Seq<char>) -> Result<Seq<IconType>, Seq<char>> {
    formats_of(lowered(split(list, ',')))
}

/// The format that a lower-case word selects: `png`, `svg` or `xmp`.
pub fn icon_type_named(word: &str) -> (r: Option<IconType>)
    ensures
        r == format_named(word@),
{
    let w = chars_of(word);
    if spells(w.as_slice(), "png") {
        Some(IconType::PNG)
    } else if spells(w.as_slice(), "svg") {
        Some(IconType::SVG)
    } else if spells(w.as_slice(), "xmp") {
        Some(IconType::XMP)
    } else {
        None
    }
}

/// Reads a comma-separated list of formats, in any letter case. Fails with
/// the first item, in lower case, that is none of `png`, `svg` and `xmp`.
pub fn parse_formats(list: &str) -> (r: Result<Vec<IconType>, String>)
    ensures
        match format_list(list@) {
            Ok(formats) => r is Ok && r->Ok_0@ == formats,
            Err(word) => r is Err && r->Err_0@ == word,
        },
{
    let chars = chars_of(list);
    let parts = split_chars(chars.as_slice(), ',');
    let ghost words = lowered(split(list@, ','));
    let mut formats: Vec<IconType> = Vec::new();
    let mut i: usize = 0;
    proof {
        assert(words.take(0) =~= Seq::<Seq<char>>::empty());
    }
    while i < parts.len()
        invariant
            i <= parts@.len(),
            views(parts@) == split(list@, ','),
            words == lowered(split(list@, ',')),
            formats_of(words.take(i as int)) == Ok::<Seq<IconType>, Seq<char>>(formats@),
        decreases parts@.len() - i,
    {
        let item = string_of(parts[i]);
        let word = to_lowercase(item.as_str());
        proof {
            assert(views(parts@)[i as int] == parts@[i as int]@);
            assert(words[i as int] == word@);
            assert(words.take(i + 1).drop_last() =~= words.take(i as int));
            assert(words.take(i + 1).last() == word@);
        }
        match icon_type_named(word.as_str()) {
            Some(format) => {
                formats.push(format);
            },
            None => {
                proof {
                    lemma_formats_of_fails(words, i + 1);
                }
                return Err(word);
            },
        }
        i += 1;
    }
    proof {
        assert(words.take(i as int) =~= words);
    }
    Ok(formats)
}

/// Once a prefix of the words has failed, the whole list fails with the
/// same word.
proof fn lemma_formats_of_fails(words: Seq<Seq<char>>, n: int)
    requires
        0 <= n <= words.len(),
        formats_of(words.take(n)) is Err,
    ensures
        formats_of(words) == formats_of(words.take(n)),
    decreases words.len() - n,
{
    if n < words.len() {
        assert(words.take(n + 1).drop_last() =~= words.take(n));
        lemma_formats_of_fails(words, n + 1);
    } else {
        assert(words.take(n) =~= words);
    }
}

/// Reads the optional format list of the command line. Without a list every
/// format is accepted, which `None` stands for.
pub fn get_formats(formats_str: Option<&String>) -> (r: Result<Option<Vec<IconType>>, String>)
    ensures
        match formats_str {
            None => r == Ok::<Option<Vec<IconType>>, String>(None),
            Some(list) => match format_list(list@) {
                Ok(formats) => r is Ok && r->Ok_0 is Some && r->Ok_0->Some_0@ == formats,
                Err(word) => r is Err && r->Err_0@ == word,
            },
        },
{
    match formats_str {
        None => Ok(None),
        Some(list) => match parse_formats(list.as_str()) {
            Ok(formats) => Ok(Some(formats)),
            Err(word) => Err(word),
        },
    }
}

} // verus!
