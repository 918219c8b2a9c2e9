//! Lists of numbers and of texts, as the records hold them.

use vstd::prelude::*;
use vstd::string::*;

verus! {

/// The texts that a list of strings holds.
pub open spec fn text_views(texts: Seq<String>) -> Seq<Seq<char>> {
    texts.map_values(|text: String| text@)
}

/// A copy of a list of numbers.
pub fn copy_numbers(numbers: &Vec<u32>) -> (copy: Vec<u32>)
    ensures
        copy@ == numbers@,
{
    let mut copy: Vec<u32> = Vec::new();
    let mut at: usize = 0;
    while at < numbers.len()
        invariant
            at <= numbers@.len(),
            copy@ == numbers@.take(at as int),
        decreases numbers@.len() - at,
    {
        copy.push(numbers[at]);
        at += 1;
        assert(copy@ =~= numbers@.take(at as int));
    }
    assert(numbers@.take(at as int) =~= numbers@);
    copy
}

/// A copy of a list of texts.
pub fn copy_texts(texts: &Vec<String>) -> (copy: Vec<String>)
    ensures
        text_views(copy@) == text_views(texts@),
{
    let mut copy: Vec<String> = Vec::new();
    let mut at: usize = 0;
    while at < texts.len()
        invariant
            at <= texts@.len(),
            text_views(copy@) == text_views(texts@).take(at as int),
        decreases texts@.len() - at,
    {
        let text = texts[at].clone();
        proof {
            assert(text@ == text_views(texts@)[at as int]);
            assert(text_views(copy@.push(text)) =~= text_views(copy@).push(text@));
            assert(text_views(texts@).take(at + 1) =~= text_views(texts@).take(at as int).push(
                text@,
            ));
        }
        copy.push(text);
        at += 1;
    }
    assert(text_views(texts@).take(at as int) =~= text_views(texts@));
    copy
}

/// Whether `text` is among `texts`.
pub fn holds_text(texts: &Vec<String>, text: &String) -> (found: bool)
    ensures
        found == text_views(texts@).contains(text@),
{
    let mut at: usize = 0;
    while at < texts.len()
        invariant
            at <= texts@.len(),
            forall|before: int| 0 <= before < at ==> text_views(texts@)[before] != text@,
        decreases texts@.len() - at,
    {
        if texts[at] == *text {
            assert(text_views(texts@)[at as int] == text@);
            return true;
        }
        at += 1;
    }
    false
}

/// Whether no text occurs twice in `texts`.
pub fn all_distinct(texts: &Vec<String>) -> (distinct: bool)
    ensures
        distinct == text_views(texts@).no_duplicates(),
{
    let ghost views = text_views(texts@);
    let mut at: usize = 0;
    while at < texts.len()
        invariant
            at <= texts@.len(),
            views == text_views(texts@),
            forall|a: int, b: int| 0 <= a < b < at ==> views[a] != views[b],
        decreases texts@.len() - at,
    {
        let mut before: usize = 0;
        while before < at
            invariant
                before <= at < texts@.len(),
                views == text_views(texts@),
                forall|a: int| 0 <= a < before ==> views[a] != views[at as int],
            decreases at - before,
        {
            if texts[before] == texts[at] {
                assert(views[before as int] == views[at as int]);
                return false;
            }
            before += 1;
        }
        at += 1;
    }
    true
}

} // verus!
