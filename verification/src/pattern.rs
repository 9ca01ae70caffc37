//! Glob patterns.

use crate::text::{holds, texts};
use vstd::prelude::*;

verus! {

/// The text holds no backslash, the character that only some platforms take for a separator.
pub open spec fn plain(s: Seq<char>) -> bool {
    !s.contains('\\')
}

/// The pattern holds none of the characters that stand for others.
pub open spec fn literal(pattern: Seq<char>) -> bool {
    !pattern.contains('?') && !pattern.contains('*') && !pattern.contains('[')
}

/// All platforms agree on whether the pattern is one: it holds no backslash, or no two stars in a row.
pub open spec fn agreed(pattern: Seq<char>) -> bool {
    plain(pattern) || !holds(pattern, "**"@)
}

/// All platforms agree on whether the text matches the pattern: neither holds a backslash; or the
/// pattern holds no two stars in a row, and a slash in the one never meets a backslash in the other.
pub open spec fn agreed_on(pattern: Seq<char>, text: Seq<char>) -> bool {
    ||| plain(pattern) && plain(text)
    ||| {
        &&& !holds(pattern, "**"@)
        &&& !(pattern.contains('/') && !plain(text))
        &&& !(!plain(pattern) && text.contains('/'))
    }
}

/// `glob::Pattern::new` accepts the pattern.
pub uninterp spec fn glob_accepts(pattern: Seq<char>) -> bool;

/// `glob::Pattern::matches` says that the text matches the pattern.
pub uninterp spec fn glob_matches(pattern: Seq<char>, text: Seq<char>) -> bool;

/// Compiles a pattern with `glob::Pattern::new`; the error says why it is none. The claim: where the
/// platforms agree, the outcome is what the name `glob_accepts` stands for, and a pattern without
/// wildcards is always accepted.
#[verifier::external_body]
fn check_pattern(pattern: &str) -> (r: Result<(), String>)
    ensures
        agreed(pattern@) ==> (r is Ok <==> glob_accepts(pattern@)),
        literal(pattern@) ==> r is Ok,
{
    glob::Pattern::new(pattern).map(|_| ()).map_err(|e| e.to_string())
}

/// Matches a text with `glob::Pattern::matches`, after `glob::Pattern::new`. The claim: where the
/// platforms agree, the outcome is what the names `glob_accepts` and `glob_matches` stand for, and a
/// pattern without wildcards matches the text that it is and no other.
#[verifier::external_body]
fn test_pattern(pattern: &str, text: &str) -> (r: Result<bool, String>)
    ensures
        agreed(pattern@) ==> (r is Ok <==> glob_accepts(pattern@)),
        literal(pattern@) ==> r is Ok,
        r matches Ok(hit) ==> (agreed_on(pattern@, text@) ==> hit == glob_matches(pattern@, text@)),
        r matches Ok(hit) ==> (literal(pattern@) && agreed_on(pattern@, text@) ==> hit == (pattern@
            == text@)),
{
    glob::Pattern::new(pattern).map(|p| p.matches(text)).map_err(|e| e.to_string())
}

/// What trying a pattern on texts came to: for each text whether it matches, or why the pattern is
/// none.
pub type Hits = Result<Seq<bool>, Seq<char>>;

/// What trying a pattern on texts came to.
pub open spec fn hits_view(r: Result<Vec<bool>, String>) -> Hits {
    match r {
        Ok(hits) => Ok(hits@),
        Err(detail) => Err(detail@),
    }
}

/// Trying the pattern on the texts can come to `hits`. Left open are the text that tells why the
/// pattern is none, and that on which the platforms do not agree.
pub open spec fn tried(pattern: Seq<char>, all: Seq<Seq<char>>, hits: Hits) -> bool {
    &&& agreed(pattern) ==> (hits is Ok <==> glob_accepts(pattern))
    &&& literal(pattern) ==> hits is Ok
    &&& hits matches Ok(found) ==> {
        &&& found.len() == all.len()
        &&& forall|i: int|
            0 <= i < all.len() && agreed_on(pattern, #[trigger] all[i]) ==> {
                &&& found[i] == glob_matches(pattern, all[i])
                &&& literal(pattern) ==> found[i] == (pattern == all[i])
            }
    }
}

/// Tries a pattern on texts.
pub fn try_pattern(pattern: &str, all: &Vec<String>) -> (r: Result<Vec<bool>, String>)
    ensures
        tried(pattern@, texts(all@), hits_view(r)),
{
    match check_pattern(pattern) {
        Ok(_) => {},
        Err(detail) => {
            return Err(detail);
        },
    }
    let mut hits: Vec<bool> = Vec::new();
    for i in 0..all.len()
        invariant
            agreed(pattern@) ==> glob_accepts(pattern@),
            hits@.len() == i,
            forall|j: int|
                0 <= j < i && agreed_on(pattern@, #[trigger] texts(all@)[j]) ==> {
                    &&& hits@[j] == glob_matches(pattern@, texts(all@)[j])
                    &&& literal(pattern@) ==> hits@[j] == (pattern@ == texts(all@)[j])
                },
    {
        match test_pattern(pattern, all[i].as_str()) {
            Ok(hit) => {
                hits.push(hit);
            },
            Err(detail) => {
                return Err(detail);
            },
        }
    }
    Ok(hits)
}

/// The first place where there is a hit.
pub open spec fn first_hit(hits: Seq<bool>) -> Option<int>
    decreases hits.len(),
{
    if hits.len() == 0 {
        None
    } else {
        match first_hit(hits.drop_last()) {
            Some(i) => Some(i),
            None => if hits.last() {
                Some(hits.len() - 1)
            } else {
                None
            },
        }
    }
}

/// The first hit is a hit, and there is none before it; where there is none, nothing is a hit.
pub proof fn lemma_first_hit(hits: Seq<bool>)
    ensures
        match first_hit(hits) {
            Some(i) => 0 <= i < hits.len() && hits[i] && forall|j: int| 0 <= j < i ==> !hits[j],
            None => forall|j: int| 0 <= j < hits.len() ==> !hits[j],
        },
    decreases hits.len(),
{
    if hits.len() > 0 {
        let head = hits.drop_last();
        lemma_first_hit(head);
        assert(forall|j: int| 0 <= j < head.len() ==> head[j] == hits[j]);
    }
}

/// A hit with none before it is the first hit.
proof fn lemma_first_hit_is(hits: Seq<bool>, at: int)
    requires
        0 <= at < hits.len(),
        hits[at],
        forall|j: int| 0 <= j < at ==> !hits[j],
    ensures
        first_hit(hits) == Some(at),
{
    lemma_first_hit(hits);
}

/// The first place where there is a hit.
pub fn find_hit(hits: &Vec<bool>) -> (r: Option<usize>)
    ensures
        match r {
            Some(i) => first_hit(hits@) == Some(i as int) && i < hits@.len(),
            None => first_hit(hits@) is None,
        },
{
    for i in 0..hits.len()
        invariant
            forall|j: int| 0 <= j < i ==> !hits@[j],
    {
        if hits[i] {
            proof {
                lemma_first_hit_is(hits@, i as int);
            }
            return Some(i);
        }
    }
    proof {
        lemma_first_hit(hits@);
    }
    None
}

/// What trying a pattern on texts can come to speaks of each text in its place: whether it matches,
/// wherever the platforms agree on that; and a pattern without wildcards matches itself alone.
pub proof fn law_tried(pattern: Seq<char>, all: Seq<Seq<char>>, hits: Hits, i: int)
    requires
        tried(pattern, all, hits),
        0 <= i < all.len(),
    ensures
        plain(pattern) || !holds(pattern, "**"@) ==> (hits is Ok <==> glob_accepts(pattern)),
        literal(pattern) ==> hits is Ok,
        hits matches Ok(found) ==> found.len() == all.len(),
        hits matches Ok(found) ==> (plain(pattern) && plain(all[i]) ==> found[i] == glob_matches(
            pattern,
            all[i],
        )),
        hits matches Ok(found) ==> (agreed_on(pattern, all[i]) ==> found[i] == glob_matches(
            pattern,
            all[i],
        )),
        hits matches Ok(found) ==> (literal(pattern) && agreed_on(pattern, all[i]) ==> found[i] == (
        pattern == all[i])),
{
    assert(agreed_on(pattern, all[i]) ==> agreed_on(pattern, all[i]));
}

} // verus!
