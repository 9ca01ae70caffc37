//! Links: where a listing of tours leads.

use super::page::{normalized, normalized_text, Element, ElementView, Page, PageView};
use crate::order::{ascending, in_order, lemma_in_order_of, TextSet};
use crate::text::{
    begins, begins_with, ends, has_part, holds, law_parts_of_texts, lemma_slashes_off, lower,
    opt_text, split_words, texts, to_lower, trim_end_parts, trim_parts, words,
};
use vstd::prelude::*;

verus! {

/// An address that a link leads to, without fragment.
#[derive(Debug)]
pub struct Resolved {
    /// The address as text.
    pub text: String,
    /// The domain that it is in.
    pub domain: Option<String>,
    /// Its path.
    pub path: String,
    /// The domain of the page that holds the link.
    pub base_domain: Option<String>,
}

/// A resolved address in a contract.
pub struct ResolvedView {
    pub text: Seq<char>,
    pub domain: Option<Seq<char>>,
    pub path: Seq<char>,
    pub base_domain: Option<Seq<char>>,
}

impl View for Resolved {
    type V = ResolvedView;

    open spec fn view(&self) -> ResolvedView {
        ResolvedView {
            text: self.text@,
            domain: opt_text(self.domain),
            path: self.path@,
            base_domain: opt_text(self.base_domain),
        }
    }
}

/// A resolved address, if there is one.
pub open spec fn resolved_view(r: Option<Resolved>) -> Option<ResolvedView> {
    match r {
        Some(resolved) => Some(resolved@),
        None => None,
    }
}

/// The address that `url` reads in a text, written out; none where it reads none.
pub uninterp spec fn url_parsed(text: Seq<char>) -> Option<Seq<char>>;

/// The address that `url` gives for a reference on the page with the address `base`; none where it
/// gives none.
pub uninterp spec fn url_joined(base: Seq<char>, reference: Seq<char>) -> Option<ResolvedView>;

/// Reads an address with `url::Url::parse`, and writes it out with `as_str`; the error says why the
/// text is none. The claim: the outcome depends on the text alone, as the name `url_parsed` says.
/// Nothing is claimed of the error's text.
#[verifier::external_body]
fn read_url(text: &str) -> (r: Result<String, String>)
    ensures
        match r {
            Ok(address) => url_parsed(text@) == Some(address@),
            Err(_) => url_parsed(text@) is None,
        },
{
    url::Url::parse(text).map(|url| url.as_str().to_string()).map_err(|e| e.to_string())
}

/// Resolves a reference with `url::Url::join`, after `url::Url::parse` of the page's address, and
/// takes the fragment off with `url::Url::set_fragment`. The claim: the outcome depends on the two
/// texts alone, as the name `url_joined` says, and the address holds no `#`, the sign that only a
/// fragment starts with.
#[verifier::external_body]
fn join_url(base: &str, reference: &str) -> (r: Option<Resolved>)
    ensures
        resolved_view(r) == url_joined(base@, reference@),
        r matches Some(to) ==> !to.text@.contains('#'),
{
    let base = url::Url::parse(base).ok()?;
    let mut url = base.join(reference).ok()?;
    url.set_fragment(None);
    Some(Resolved {
        text: url.as_str().to_string(),
        domain: url.domain().map(str::to_string),
        path: url.path().to_string(),
        base_domain: base.domain().map(str::to_string),
    })
}

/// The address in a text, in the form in which addresses are compared.
pub fn parse_address(text: &str) -> (r: Result<String, String>)
    ensures
        match r {
            Ok(address) => url_parsed(text@) == Some(address@),
            Err(_) => url_parsed(text@) is None,
        },
{
    read_url(text)
}

/// Where a link on the page with the address `base` leads.
pub open spec fn leads_to(base: Seq<char>, link: ElementView) -> Option<ResolvedView> {
    match link.href {
        Some(reference) => url_joined(base, reference),
        None => None,
    }
}

/// Where the links lead.
pub open spec fn targets(base: Seq<char>, links: Seq<ElementView>) -> Seq<Option<ResolvedView>> {
    Seq::new(links.len(), |i: int| leads_to(base, links[i]))
}

/// Where the links were found to lead.
pub open spec fn targets_view(found: Seq<Option<Resolved>>) -> Seq<Option<ResolvedView>> {
    Seq::new(found.len(), |i: int| resolved_view(found[i]))
}

/// No address among the targets holds a fragment.
pub open spec fn plain_targets(targets: Seq<Option<ResolvedView>>) -> bool {
    forall|i: int|
        0 <= i < targets.len() ==> (#[trigger] targets[i] matches Some(to) ==> !to.text.contains(
            '#',
        ))
}

/// The address is that of a tour: in the domain of the page, below the tours, and not among the
/// operators.
pub open spec fn is_tour(to: ResolvedView) -> bool {
    &&& to.domain == to.base_domain
    &&& begins(to.path, "/tours/"@)
    &&& trim_parts(to.path, "/"@) != "/tours"@
    &&& !holds(to.path, "/operators/"@)
}

/// The address is that of a listing: in the domain of the page, and among the tours.
pub open spec fn is_listing(to: ResolvedView) -> bool {
    &&& to.domain == to.base_domain
    &&& begins(to.path, "/tours"@)
}

/// The link says that it leads to the next page: by its attribute `rel` or by its text.
pub open spec fn says_next(link: ElementView) -> bool {
    let text = normalized(link.texts);
    ||| link.rel matches Some(rel) && exists|i: int|
        0 <= i < words(rel).len() && lower(#[trigger] words(rel)[i]) == lower("next"@)
    ||| lower(text) == "next"@
    ||| text == "›"@
    ||| text == ">"@
}

/// The addresses of the tours among the targets.
pub open spec fn tours_among(targets: Seq<Option<ResolvedView>>) -> Set<Seq<char>> {
    Set::new(
        |t: Seq<char>|
            exists|i: int|
                0 <= i < targets.len() && (#[trigger] targets[i] matches Some(to) && is_tour(to)
                    && to.text == t),
    )
}

/// The addresses of the listings among the targets of links that say that they lead to the next
/// page.
pub open spec fn listings_among(
    links: Seq<ElementView>,
    targets: Seq<Option<ResolvedView>>,
) -> Set<Seq<char>> {
    Set::new(
        |t: Seq<char>|
            exists|i: int|
                0 <= i < targets.len() && (#[trigger] targets[i] matches Some(to) && says_next(
                    links[i],
                ) && is_listing(to) && to.text == t),
    )
}

fn same_domain(a: &Option<String>, b: &Option<String>) -> (r: bool)
    ensures
        r == (opt_text(*a) == opt_text(*b)),
{
    match (a, b) {
        (Some(x), Some(y)) => *x.as_str() == *y.as_str(),
        (None, None) => true,
        _ => false,
    }
}

/// Whether an address is that of a tour.
pub fn leads_to_tour(to: &Resolved) -> (r: bool)
    ensures
        r == is_tour(to@),
{
    let path = to.path.as_str();
    same_domain(&to.domain, &to.base_domain) && begins_with(path, "/tours/") && *trim_end_parts(
        path,
        "/",
    ).as_str() != *"/tours" && !has_part(path, "/operators/")
}

/// Whether an address is that of a listing.
pub fn leads_to_listing(to: &Resolved) -> (r: bool)
    ensures
        r == is_listing(to@),
{
    same_domain(&to.domain, &to.base_domain) && begins_with(to.path.as_str(), "/tours")
}

/// Whether the words of an attribute `rel` hold `next`.
fn rel_says_next(rel: &str) -> (r: bool)
    ensures
        r == exists|i: int|
            0 <= i < words(rel@).len() && lower(#[trigger] words(rel@)[i]) == lower("next"@),
{
    let parts = split_words(rel);
    let next = to_lower("next");
    for i in 0..parts.len()
        invariant
            texts(parts@) == words(rel@),
            next@ == lower("next"@),
            forall|j: int| 0 <= j < i ==> lower(#[trigger] words(rel@)[j]) != lower("next"@),
    {
        let part = to_lower(parts[i].as_str());
        assert(words(rel@)[i as int] == parts@[i as int]@);
        if *part.as_str() == *next.as_str() {
            return true;
        }
    }
    false
}

/// Whether a link says that it leads to the next page.
pub fn link_says_next(link: &Element) -> (r: bool)
    ensures
        r == says_next(link@),
{
    let text = normalized_text(&link.texts);
    let rel_next = match &link.rel {
        Some(rel) => rel_says_next(rel.as_str()),
        None => false,
    };
    rel_next || *to_lower(text.as_str()).as_str() == *"next" || *text.as_str() == *"›"
        || *text.as_str() == *">"
}

/// Where the links of a page lead.
fn resolve_links(document: &Page, base_url: &str) -> (r: Vec<Option<Resolved>>)
    ensures
        targets_view(r@) == targets(base_url@, document@.links),
        r@.len() == document.links@.len(),
        plain_targets(targets_view(r@)),
{
    let ghost all = targets(base_url@, document@.links);
    let mut found: Vec<Option<Resolved>> = Vec::new();
    assert(targets_view(found@) =~= all.take(0));
    for i in 0..document.links.len()
        invariant
            all == targets(base_url@, document@.links),
            found@.len() == i,
            targets_view(found@) == all.take(i as int),
            plain_targets(targets_view(found@)),
    {
        let to = match &document.links[i].href {
            Some(reference) => join_url(base_url, reference.as_str()),
            None => None,
        };
        let ghost before = targets_view(found@);
        let ghost seen = resolved_view(to);
        found.push(to);
        assert(targets_view(found@) =~= before.push(seen));
        assert forall|k: int|
            0 <= k < targets_view(found@).len() implies (#[trigger] targets_view(
            found@,
        )[k] matches Some(to) ==> !to.text.contains('#')) by {
            if k < before.len() {
                assert(targets_view(found@)[k] == before[k]);
            }
        }
        assert(all.take(i + 1) =~= all.take(i as int).push(all[i as int]));
    }
    assert(all.take(all.len() as int) =~= all);
    found
}

/// The addresses of the tours among the targets, in order and each once.
pub fn collect_tour_links(found: &Vec<Option<Resolved>>) -> (r: Vec<String>)
    ensures
        texts(r@) == in_order(tours_among(targets_view(found@))),
{
    let ghost all = targets_view(found@);
    let mut links = TextSet::new();
    assert(links@ =~= tours_among(all.take(0)));
    for i in 0..found.len()
        invariant
            all == targets_view(found@),
            links@ == tours_among(all.take(i as int)),
    {
        let ghost before = all.take(i as int);
        let ghost next = all.take(i + 1);
        let ghost here = links@;
        assert(next[i as int] == resolved_view(found@[i as int]));
        assert forall|t: Seq<char>| #[trigger]
            tours_among(next).contains(t) <==> tours_among(before).contains(t) || (
        next[i as int] matches Some(to) && is_tour(to) && to.text == t) by {
            if tours_among(before).contains(t) {
                let k = choose|k: int|
                    0 <= k < before.len() && (#[trigger] before[k] matches Some(to) && is_tour(to)
                        && to.text == t);
                assert(next[k] == before[k]);
            }
            if tours_among(next).contains(t) {
                let k = choose|k: int|
                    0 <= k < next.len() && (#[trigger] next[k] matches Some(to) && is_tour(to)
                        && to.text == t);
                if k < i {
                    assert(before[k] == next[k]);
                }
            }
        }
        match &found[i] {
            Some(to) => {
                if leads_to_tour(to) {
                    let _ = links.insert(to.text.clone());
                    assert(links@ =~= tours_among(next));
                } else {
                    assert(links@ =~= tours_among(next));
                }
            },
            None => {
                assert(links@ =~= tours_among(next));
            },
        }
    }
    assert(all.take(all.len() as int) =~= all);
    links.into_items()
}

/// The addresses of the listings among the targets of links that say that they lead to the next
/// page, in order and each once.
pub fn collect_next_listing_links(document: &Page, found: &Vec<Option<Resolved>>) -> (r: Vec<
    String,
>)
    requires
        found@.len() == document.links@.len(),
    ensures
        texts(r@) == in_order(listings_among(document@.links, targets_view(found@))),
{
    let ghost all = targets_view(found@);
    let ghost from = document@.links;
    let mut links = TextSet::new();
    assert(links@ =~= listings_among(from, all.take(0)));
    for i in 0..found.len()
        invariant
            found@.len() == document.links@.len(),
            all == targets_view(found@),
            from == document@.links,
            links@ == listings_among(from, all.take(i as int)),
    {
        let ghost before = all.take(i as int);
        let ghost next = all.take(i + 1);
        assert(next[i as int] == resolved_view(found@[i as int]));
        assert(from[i as int] == document.links@[i as int]@);
        assert forall|t: Seq<char>| #[trigger]
            listings_among(from, next).contains(t) <==> listings_among(from, before).contains(t)
                || (next[i as int] matches Some(to) && says_next(from[i as int]) && is_listing(to)
                && to.text == t) by {
            if listings_among(from, before).contains(t) {
                let k = choose|k: int|
                    0 <= k < before.len() && (#[trigger] before[k] matches Some(to) && says_next(
                        from[k],
                    ) && is_listing(to) && to.text == t);
                assert(next[k] == before[k]);
            }
            if listings_among(from, next).contains(t) {
                let k = choose|k: int|
                    0 <= k < next.len() && (#[trigger] next[k] matches Some(to) && says_next(
                        from[k],
                    ) && is_listing(to) && to.text == t);
                if k < i {
                    assert(before[k] == next[k]);
                }
            }
        }
        match &found[i] {
            Some(to) => {
                if link_says_next(&document.links[i]) && leads_to_listing(to) {
                    let _ = links.insert(to.text.clone());
                    assert(links@ =~= listings_among(from, next));
                } else {
                    assert(links@ =~= listings_among(from, next));
                }
            },
            None => {
                assert(links@ =~= listings_among(from, next));
            },
        }
    }
    assert(all.take(all.len() as int) =~= all);
    links.into_items()
}

/// The addresses of the tours that a page links to, in order and each once.
pub open spec fn tour_links(page: PageView, base: Seq<char>) -> Seq<Seq<char>> {
    in_order(tours_among(targets(base, page.links)))
}

/// The addresses of the next listings that a page links to, in order and each once.
pub open spec fn next_links(page: PageView, base: Seq<char>) -> Seq<Seq<char>> {
    in_order(listings_among(page.links, targets(base, page.links)))
}

/// The addresses of the tours that a page links to, without fragments, in order and each once.
pub fn extract_tour_links(document: &Page, base_url: &str) -> (r: Vec<String>)
    ensures
        texts(r@) == tour_links(document@, base_url@),
        forall|i: int| 0 <= i < r@.len() ==> !(#[trigger] texts(r@)[i]).contains('#'),
{
    let found = resolve_links(document, base_url);
    let links = collect_tour_links(&found);
    proof {
        let all = targets_view(found@);
        let named = tours_among(all);
        lemma_tours_finite(all);
        lemma_in_order_of(named);
        assert forall|i: int| 0 <= i < links@.len() implies !(#[trigger] texts(links@)[i]).contains(
            '#',
        ) by {
            let url = texts(links@)[i];
            assert(texts(links@).to_set().contains(url));
            let k = choose|k: int|
                0 <= k < all.len() && (#[trigger] all[k] matches Some(to) && is_tour(to) && to.text
                    == url);
            assert(!(all[k]->0).text.contains('#'));
        }
    }
    links
}

/// The addresses of the next listings that a page links to, without fragments, in order and each
/// once.
pub fn extract_next_listing_links(document: &Page, base_url: &str) -> (r: Vec<String>)
    ensures
        texts(r@) == next_links(document@, base_url@),
        forall|i: int| 0 <= i < r@.len() ==> !(#[trigger] texts(r@)[i]).contains('#'),
{
    let found = resolve_links(document, base_url);
    let links = collect_next_listing_links(document, &found);
    proof {
        let all = targets_view(found@);
        let named = listings_among(document@.links, all);
        lemma_listings_finite(document@.links, all);
        lemma_in_order_of(named);
        assert forall|i: int| 0 <= i < links@.len() implies !(#[trigger] texts(links@)[i]).contains(
            '#',
        ) by {
            let url = texts(links@)[i];
            assert(texts(links@).to_set().contains(url));
            let k = choose|k: int|
                0 <= k < all.len() && (#[trigger] all[k] matches Some(to) && says_next(
                    document@.links[k],
                ) && is_listing(to) && to.text == url);
            assert(!(all[k]->0).text.contains('#'));
        }
    }
    links
}

proof fn lemma_tours_finite(targets: Seq<Option<ResolvedView>>)
    ensures
        tours_among(targets).finite(),
    decreases targets.len(),
{
    if targets.len() == 0 {
        assert(tours_among(targets) =~= Set::<Seq<char>>::empty());
    } else {
        let head = targets.drop_last();
        lemma_tours_finite(head);
        let more = match targets.last() {
            Some(to) => tours_among(head).insert(to.text),
            None => tours_among(head),
        };
        assert forall|t: Seq<char>| tours_among(targets).contains(t) implies more.contains(t) by {
            let k = choose|k: int|
                0 <= k < targets.len() && (#[trigger] targets[k] matches Some(to) && is_tour(to)
                    && to.text == t);
            if k < head.len() {
                assert(head[k] == targets[k]);
            }
        }
        vstd::set_lib::lemma_len_subset(tours_among(targets), more);
    }
}

proof fn lemma_listings_finite(links: Seq<ElementView>, targets: Seq<Option<ResolvedView>>)
    ensures
        listings_among(links, targets).finite(),
    decreases targets.len(),
{
    if targets.len() == 0 {
        assert(listings_among(links, targets) =~= Set::<Seq<char>>::empty());
    } else {
        let head = targets.drop_last();
        lemma_listings_finite(links, head);
        let more = match targets.last() {
            Some(to) => listings_among(links, head).insert(to.text),
            None => listings_among(links, head),
        };
        assert forall|t: Seq<char>| listings_among(links, targets).contains(t) implies more.contains(
            t,
        ) by {
            let k = choose|k: int|
                0 <= k < targets.len() && (#[trigger] targets[k] matches Some(to) && says_next(
                    links[k],
                ) && is_listing(to) && to.text == t);
            if k < head.len() {
                assert(head[k] == targets[k]);
            }
        }
        vstd::set_lib::lemma_len_subset(listings_among(links, targets), more);
    }
}

/// The tours that a page links to come in order and each once, and they are exactly those
/// addresses that some link of the page leads to and that are addresses of tours.
pub proof fn law_tour_links(page: PageView, base: Seq<char>, url: Seq<char>)
    ensures
        ascending(tour_links(page, base)),
        tour_links(page, base).contains(url) <==> exists|i: int|
            0 <= i < page.links.len() && (leads_to(base, #[trigger] page.links[i]) matches Some(to)
                && is_tour(to) && to.text == url),
{
    let to_all = targets(base, page.links);
    let found = tours_among(to_all);
    lemma_tours_finite(to_all);
    lemma_in_order_of(found);
    assert(tour_links(page, base).contains(url) <==> tour_links(page, base).to_set().contains(url));
    if found.contains(url) {
        let i = choose|i: int|
            0 <= i < to_all.len() && (#[trigger] to_all[i] matches Some(to) && is_tour(to)
                && to.text == url);
        assert(leads_to(base, page.links[i]) == to_all[i]);
    }
    if exists|i: int|
        0 <= i < page.links.len() && (leads_to(base, #[trigger] page.links[i]) matches Some(to)
            && is_tour(to) && to.text == url) {
        let i = choose|i: int|
            0 <= i < page.links.len() && (leads_to(base, #[trigger] page.links[i]) matches Some(to)
                && is_tour(to) && to.text == url);
        assert(to_all[i] == leads_to(base, page.links[i]));
    }
}

/// The next listings that a page links to come in order and each once, and they are exactly those
/// addresses of listings that some link of the page leads to that says that it leads to the next
/// page.
pub proof fn law_next_links(page: PageView, base: Seq<char>, url: Seq<char>)
    ensures
        ascending(next_links(page, base)),
        next_links(page, base).contains(url) <==> exists|i: int|
            0 <= i < page.links.len() && says_next(page.links[i]) && (leads_to(
                base,
                #[trigger] page.links[i],
            ) matches Some(to) && is_listing(to) && to.text == url),
{
    let to_all = targets(base, page.links);
    let found = listings_among(page.links, to_all);
    lemma_listings_finite(page.links, to_all);
    lemma_in_order_of(found);
    assert(next_links(page, base).contains(url) <==> next_links(page, base).to_set().contains(url));
    if found.contains(url) {
        let i = choose|i: int|
            0 <= i < to_all.len() && (#[trigger] to_all[i] matches Some(to) && says_next(
                page.links[i],
            ) && is_listing(to) && to.text == url);
        assert(leads_to(base, page.links[i]) == to_all[i]);
    }
    if exists|i: int|
        0 <= i < page.links.len() && says_next(page.links[i]) && (leads_to(
            base,
            #[trigger] page.links[i],
        ) matches Some(to) && is_listing(to) && to.text == url) {
        let i = choose|i: int|
            0 <= i < page.links.len() && says_next(page.links[i]) && (leads_to(
                base,
                #[trigger] page.links[i],
            ) matches Some(to) && is_listing(to) && to.text == url);
        assert(to_all[i] == leads_to(base, page.links[i]));
    }
}

/// The address of a tour is in the domain of the page, its path starts with `/tours/` and has more
/// behind that than slashes, and nowhere in it stands `/operators/`.
pub proof fn law_tour_address(to: ResolvedView, rest: Seq<char>)
    ensures
        is_tour(to) ==> to.domain == to.base_domain && exists|r: Seq<char>|
            to.path == #[trigger] ("/tours/"@ + r),
        to.path == "/tours/"@ + rest ==> (is_tour(to) <==> {
            &&& to.domain == to.base_domain
            &&& exists|i: int| 0 <= i < rest.len() && rest[i] != '/'
            &&& !holds(to.path, "/operators/"@)
        }),
{
    if is_tour(to) {
        law_parts_of_texts(Seq::empty(), "/tours/"@, Seq::empty(), to.path);
    }
    if to.path == "/tours/"@ + rest {
        law_parts_of_texts(Seq::empty(), "/tours/"@, rest, to.path);
        lemma_behind_tours(rest);
    }
}

/// Behind `/tours/` there are only slashes exactly where nothing else than `/tours` is left without
/// the slashes at the back.
proof fn lemma_behind_tours(rest: Seq<char>)
    ensures
        trim_parts("/tours/"@ + rest, "/"@) == "/tours"@ <==> forall|i: int|
            0 <= i < rest.len() ==> rest[i] == '/',
{
    reveal_strlit("/tours/");
    reveal_strlit("/tours");
    let path = "/tours/"@ + rest;
    let tail = seq!['/'] + rest;
    assert(path =~= "/tours"@ + tail);
    if forall|i: int| 0 <= i < rest.len() ==> rest[i] == '/' {
        assert forall|i: int| 0 <= i < tail.len() implies #[trigger] tail[i] == '/' by {
            if i > 0 {
                assert(tail[i] == rest[i - 1]);
            }
        }
        lemma_slashes_off("/tours"@, tail);
    } else {
        let k = choose|i: int| 0 <= i < rest.len() && rest[i] != '/';
        assert(path[7 + k] == rest[k]);
        lemma_keeps_non_slash(path, 7 + k);
    }
}

proof fn lemma_keeps_non_slash(s: Seq<char>, k: int)
    requires
        0 <= k < s.len(),
        s[k] != '/',
    ensures
        trim_parts(s, "/"@).len() > k,
    decreases s.len(),
{
    reveal_strlit("/");
    if ends(s, "/"@) {
        assert(s.subrange(s.len() - 1, s.len() as int)[0] == '/');
        assert(s.last() == '/');
        lemma_keeps_non_slash(s.take(s.len() - 1), k);
    }
}

/// The address of a listing is in the domain of the page, and its path starts with `/tours`.
pub proof fn law_listing_address(to: ResolvedView, rest: Seq<char>)
    ensures
        is_listing(to) ==> to.domain == to.base_domain && exists|r: Seq<char>|
            to.path == #[trigger] ("/tours"@ + r),
        to.path == "/tours"@ + rest ==> (is_listing(to) <==> to.domain == to.base_domain),
{
    if is_listing(to) {
        law_parts_of_texts(Seq::empty(), "/tours"@, Seq::empty(), to.path);
    }
    law_parts_of_texts(Seq::empty(), "/tours"@, rest, to.path);
}

/// A link says that it leads to the next page where `next` is a word of its attribute `rel` or all of
/// its text, in letters of any size, or where its text is an arrow.
pub proof fn law_says_next(link: ElementView)
    ensures
        says_next(link) <==> {
            let text = normalized(link.texts);
            ||| link.rel matches Some(rel) && exists|i: int|
                0 <= i < words(rel).len() && lower(#[trigger] words(rel)[i]) == seq![
                    'n',
                    'e',
                    'x',
                    't',
                ]
            ||| lower(text) == seq!['n', 'e', 'x', 't']
            ||| text == seq!['›']
            ||| text == seq!['>']
        },
{
    reveal_strlit("next");
    reveal_strlit("›");
    reveal_strlit(">");
    assert("next"@ =~= seq!['n', 'e', 'x', 't']);
    assert(lower("next"@) =~= "next"@);
    assert("›"@ =~= seq!['›']);
    assert(">"@ =~= seq!['>']);
}

/// A link leads where its reference, seen from the page, does; one without a reference leads nowhere.
pub proof fn law_leads_to(base: Seq<char>, link: ElementView)
    ensures
        link.href matches Some(reference) ==> leads_to(base, link) == url_joined(base, reference),
        link.href is None ==> leads_to(base, link) is None,
{
}

/// Contracts speak of all that a resolved address holds, and of the targets of links one for one.
pub proof fn law_targets_in_contracts(
    to: Resolved,
    found: Seq<Option<Resolved>>,
    base: Seq<char>,
    links: Seq<ElementView>,
    i: int,
)
    ensures
        to@.text == to.text@,
        to@.domain == opt_text(to.domain),
        to@.path == to.path@,
        to@.base_domain == opt_text(to.base_domain),
        targets_view(found).len() == found.len(),
        0 <= i < found.len() ==> match found[i] {
            Some(r) => targets_view(found)[i] == Some(r@),
            None => targets_view(found)[i] is None,
        },
        targets(base, links).len() == links.len(),
        0 <= i < links.len() ==> targets(base, links)[i] == leads_to(base, links[i]),
{
}

} // verus!
