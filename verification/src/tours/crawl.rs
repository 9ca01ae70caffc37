//! Crawling: which page to fetch next, and what to keep of it.

use super::analysis::{
    analyze_tour, analyzed, judged, law_offered_tours, AnalyzedView, DecisionView, TourDecision,
};
use super::links::{extract_next_listing_links, extract_tour_links, next_links, tour_links};
use super::page::{extract_title, page_of, read_page, title_of};
use super::ranking::{rank_matches, ranking_of, MatchView, TourMatch};
use crate::gather::views;
use crate::order::TextSet;
use crate::text::{opt_text, texts};
use vstd::prelude::*;

verus! {

/// What a crawl asks for next.
#[derive(Debug)]
pub enum CrawlAction {
    /// Fetch the listing at this address.
    FetchListing(String),
    /// Wait, then fetch the tour at this address.
    FetchTour(String),
    /// Wait: a listing is done.
    Pause,
    /// Nothing is left to fetch.
    Finish,
}

/// What a crawl asks for next, in a contract.
pub enum ActionView {
    FetchListing(Seq<char>),
    FetchTour(Seq<char>),
    Pause,
    Finish,
}

impl View for CrawlAction {
    type V = ActionView;

    open spec fn view(&self) -> ActionView {
        match *self {
            CrawlAction::FetchListing(url) => ActionView::FetchListing(url@),
            CrawlAction::FetchTour(url) => ActionView::FetchTour(url@),
            CrawlAction::Pause => ActionView::Pause,
            CrawlAction::Finish => ActionView::Finish,
        }
    }
}

/// What a listing leads to: tours that were not looked at yet, and the next listings.
pub struct Listing {
    tours: Vec<String>,
    next: Vec<String>,
}

/// What a listing leads to, in a contract.
pub struct ListingView {
    pub tours: Seq<Seq<char>>,
    pub next: Seq<Seq<char>>,
}

/// A crawl in progress.
pub struct Crawl {
    max_pages: usize,
    max_tours: usize,
    queue: Vec<String>,
    seen_pages: TextSet,
    seen_tours: TextSet,
    listing: Option<Listing>,
    matches: Vec<TourMatch>,
    asked: Ghost<Option<ActionView>>,
}

/// A crawl in a contract.
pub struct CrawlView {
    /// How many listings may be fetched.
    pub max_pages: nat,
    /// How many tours may be fetched.
    pub max_tours: nat,
    /// The listings to look at.
    pub queue: Seq<Seq<char>>,
    /// The listings that were fetched.
    pub seen_pages: Set<Seq<char>>,
    /// The tours that were fetched.
    pub seen_tours: Set<Seq<char>>,
    /// The listing that is being worked off.
    pub listing: Option<ListingView>,
    /// The tours to offer, as they came.
    pub matches: Seq<MatchView>,
    /// What was asked for and has not been handed in.
    pub asked: Option<ActionView>,
}

impl View for Listing {
    type V = ListingView;

    closed spec fn view(&self) -> ListingView {
        ListingView { tours: texts(self.tours@), next: texts(self.next@) }
    }
}

impl View for Crawl {
    type V = CrawlView;

    closed spec fn view(&self) -> CrawlView {
        CrawlView {
            max_pages: self.max_pages as nat,
            max_tours: self.max_tours as nat,
            queue: texts(self.queue@),
            seen_pages: self.seen_pages@,
            seen_tours: self.seen_tours@,
            listing: match self.listing {
                Some(listing) => Some(listing@),
                None => None,
            },
            matches: views(self.matches@),
            asked: self.asked@,
        }
    }
}

/// The first address that was not seen, and the addresses behind it; none where all were seen or
/// no more may be.
pub open spec fn next_new(links: Seq<Seq<char>>, seen: Set<Seq<char>>, max: nat) -> Option<
    (Seq<char>, Seq<Seq<char>>),
>
    decreases links.len(),
{
    if links.len() == 0 {
        None
    } else if seen.len() < max && !seen.contains(links[0]) {
        Some((links[0], links.skip(1)))
    } else {
        next_new(links.skip(1), seen, max)
    }
}

/// The addresses that were not seen.
pub open spec fn unseen(links: Seq<Seq<char>>, seen: Set<Seq<char>>) -> Seq<Seq<char>> {
    links.filter(|url: Seq<char>| !seen.contains(url))
}

/// The next step of a crawl: the next new tour of the listing that is being worked off; when there is
/// none, the end of that listing; and when no listing is being worked off, the next new listing.
pub open spec fn next_action(s: CrawlView) -> ActionView {
    match s.listing {
        Some(listing) => match next_new(listing.tours, s.seen_tours, s.max_tours) {
            Some((url, _)) => ActionView::FetchTour(url),
            None => ActionView::Pause,
        },
        None => match next_new(s.queue, s.seen_pages, s.max_pages) {
            Some((url, _)) => ActionView::FetchListing(url),
            None => ActionView::Finish,
        },
    }
}

/// A crawl that has been asked for its next step, and the step.
pub open spec fn advanced(s: CrawlView) -> (CrawlView, ActionView) {
    let action = next_action(s);
    let asked = Some(action);
    let next = match s.listing {
        Some(listing) => match next_new(listing.tours, s.seen_tours, s.max_tours) {
            Some((url, rest)) => CrawlView {
                seen_tours: s.seen_tours.insert(url),
                listing: Some(ListingView { tours: rest, next: listing.next }),
                asked,
                ..s
            },
            None => CrawlView {
                queue: s.queue + unseen(listing.next, s.seen_pages),
                listing: None,
                asked,
                ..s
            },
        },
        None => match next_new(s.queue, s.seen_pages, s.max_pages) {
            Some((url, rest)) => CrawlView {
                queue: rest,
                seen_pages: s.seen_pages.insert(url),
                asked,
                ..s
            },
            None => CrawlView { queue: Seq::empty(), asked, ..s },
        },
    };
    (next, action)
}

/// A crawl that was handed what the listing that it asked for leads to.
pub open spec fn with_listing(s: CrawlView, listing: ListingView) -> CrawlView {
    CrawlView { listing: Some(listing), asked: None, ..s }
}

/// A crawl that was handed what was made of the tour that it asked for.
pub open spec fn with_tour(
    s: CrawlView,
    url: Seq<char>,
    title: Option<Seq<char>>,
    decision: DecisionView,
) -> CrawlView {
    CrawlView { matches: with_decision(s.matches, url, title, decision), asked: None, ..s }
}

/// A crawl at its beginning.
pub open spec fn begun(start_url: Seq<char>, max_pages: nat, max_tours: nat) -> CrawlView {
    CrawlView {
        max_pages,
        max_tours,
        queue: seq![start_url],
        seen_pages: Set::empty(),
        seen_tours: Set::empty(),
        listing: None,
        matches: Seq::empty(),
        asked: None,
    }
}

/// The tour to offer for a page: its address stands in for a title that it lacks.
pub open spec fn match_of(url: Seq<char>, title: Option<Seq<char>>, tour: AnalyzedView) -> MatchView {
    MatchView {
        title: match title {
            Some(title) => title,
            None => url,
        },
        url,
        price_usd: tour.price_usd,
        accommodation_level: tour.accommodation_level,
        has_central_serengeti: tour.has_central_serengeti,
        route_assessment: tour.route_assessment,
        green_keywords: tour.green_keywords,
        score: tour.score,
    }
}

/// The tours to offer after one more was judged.
pub open spec fn with_decision(
    matches: Seq<MatchView>,
    url: Seq<char>,
    title: Option<Seq<char>>,
    decision: DecisionView,
) -> Seq<MatchView> {
    match decision {
        DecisionView::Keep(tour) => matches.push(match_of(url, title, tour)),
        DecisionView::Drop(_) => matches,
    }
}

/// Takes the first address that was not seen off the links, and marks it as seen.
fn take_new(links: &mut Vec<String>, seen: &mut TextSet, max: usize) -> (r: Option<String>)
    ensures
        match next_new(texts(old(links)@), old(seen)@, max as nat) {
            Some((url, rest)) => {
                &&& opt_text(r) == Some(url)
                &&& texts(final(links)@) == rest
                &&& final(seen)@ == old(seen)@.insert(url)
            },
            None => r is None && final(links)@.len() == 0 && final(seen)@ == old(seen)@,
        },
{
    let ghost all = texts(links@);
    let ghost marked = seen@;
    while links.len() > 0
        invariant
            all == texts(old(links)@),
            marked == old(seen)@,
            seen@ == marked,
            next_new(texts(links@), marked, max as nat) == next_new(all, marked, max as nat),
        decreases links@.len(),
    {
        let ghost before = texts(links@);
        let url = links.remove(0);
        proof {
            assert(before[0] == url@);
            assert(texts(links@) =~= before.skip(1));
        }
        if seen.len() < max && !seen.contains(url.as_str()) {
            let _ = seen.insert(url.clone());
            return Some(url);
        }
    }
    None
}

impl Crawl {
    /// A crawl from a first listing, of so many listings and tours at most.
    pub fn new(start_url: String, max_pages: usize, max_tours: usize) -> (r: Crawl)
        ensures
            r@ == begun(start_url@, max_pages as nat, max_tours as nat),
    {
        let ghost start = start_url@;
        let mut queue: Vec<String> = Vec::new();
        queue.push(start_url);
        let matches: Vec<TourMatch> = Vec::new();
        assert(texts(queue@) =~= seq![start]);
        assert(views(matches@) =~= Seq::<MatchView>::empty());
        Crawl {
            max_pages,
            max_tours,
            queue,
            seen_pages: TextSet::new(),
            seen_tours: TextSet::new(),
            listing: None,
            matches,
            asked: Ghost(None),
        }
    }

    /// What to do next.
    pub fn advance(&mut self) -> (r: CrawlAction)
        ensures
            (final(self)@, r@) == advanced(old(self)@),
    {
        self.asked = Ghost(Some(next_action(self@)));
        let mut listing: Option<Listing> = None;
        std::mem::swap(&mut listing, &mut self.listing);
        match listing {
            Some(listing) => {
                let Listing { mut tours, next } = listing;
                match take_new(&mut tours, &mut self.seen_tours, self.max_tours) {
                    Some(url) => {
                        self.listing = Some(Listing { tours, next });
                        CrawlAction::FetchTour(url)
                    },
                    None => {
                        self.enqueue(next);
                        CrawlAction::Pause
                    },
                }
            },
            None => match take_new(&mut self.queue, &mut self.seen_pages, self.max_pages) {
                Some(url) => CrawlAction::FetchListing(url),
                None => {
                    assert(texts(self.queue@) =~= Seq::<Seq<char>>::empty());
                    CrawlAction::Finish
                },
            },
        }
    }

    /// Puts the listings that were not fetched into the queue.
    fn enqueue(&mut self, next: Vec<String>)
        ensures
            final(self)@ == (CrawlView {
                queue: old(self)@.queue + unseen(texts(next@), old(self)@.seen_pages),
                ..old(self)@
            }),
    {
        let ghost before = self@;
        let ghost all = texts(next@);
        let ghost wanted = |url: Seq<char>| !before.seen_pages.contains(url);
        assert(all.take(0).filter(wanted) =~= Seq::<Seq<char>>::empty()) by {
            reveal(Seq::filter);
        }
        assert(self@.queue =~= before.queue + all.take(0).filter(wanted));
        for url in it: next
            invariant
                it.seq() == next@,
                all == texts(next@),
                wanted == (|url: Seq<char>| !before.seen_pages.contains(url)),
                self@ == (CrawlView {
                    queue: before.queue + all.take(it.index()).filter(wanted),
                    ..before
                }),
        {
            proof {
                reveal(Seq::filter);
                assert(all.take(it.index() + 1).drop_last() =~= all.take(it.index()));
                assert(all.take(it.index() + 1).last() == url@);
            }
            if !self.seen_pages.contains(url.as_str()) {
                let ghost queue = texts(self.queue@);
                let ghost text = url@;
                self.queue.push(url);
                proof {
                    assert(texts(self.queue@) =~= queue.push(text));
                    assert((before.queue + all.take(it.index()).filter(wanted)).push(text)
                        =~= before.queue + all.take(it.index()).filter(wanted).push(text));
                }
            }
        }
        assert(all.take(all.len() as int) =~= all);
    }

    /// Takes what the listing that was asked for was found to lead to.
    pub fn take_links(&mut self, tours: Vec<String>, next: Vec<String>)
        requires
            old(self)@.asked matches Some(ActionView::FetchListing(_)),
        ensures
            final(self)@ == with_listing(
                old(self)@,
                ListingView { tours: texts(tours@), next: texts(next@) },
            ),
    {
        self.listing = Some(Listing { tours, next });
        self.asked = Ghost(None);
    }

    /// Takes the listing that was asked for, fetched from its address.
    pub fn take_listing(&mut self, url: &str, html: &str)
        requires
            old(self)@.asked == Some(ActionView::FetchListing(url@)),
        ensures
            final(self)@ == with_listing(
                old(self)@,
                ListingView {
                    tours: tour_links(page_of(html@), url@),
                    next: next_links(page_of(html@), url@),
                },
            ),
    {
        let page = read_page(html);
        let tours = extract_tour_links(&page, url);
        let next = extract_next_listing_links(&page, url);
        self.take_links(tours, next);
    }

    /// Takes what was made of the tour that was asked for: its title, and whether it is offered.
    pub fn take_decision(&mut self, url: &str, title: Option<String>, decision: TourDecision)
        requires
            old(self)@.asked == Some(ActionView::FetchTour(url@)),
        ensures
            final(self)@ == with_tour(old(self)@, url@, opt_text(title), decision@),
    {
        self.asked = Ghost(None);
        match decision {
            TourDecision::Keep(tour) => {
                let title = match title {
                    Some(title) => title,
                    None => url.to_owned(),
                };
                let ghost before = views(self.matches@);
                let found = TourMatch {
                    title,
                    url: url.to_owned(),
                    price_usd: tour.price_usd,
                    accommodation_level: tour.accommodation_level,
                    has_central_serengeti: tour.has_central_serengeti,
                    route_assessment: tour.route_assessment,
                    green_keywords: tour.green_keywords,
                    score: tour.score,
                };
                let ghost added = found@;
                self.matches.push(found);
                assert(views(self.matches@) =~= before.push(added));
            },
            TourDecision::Drop(_) => {},
        }
    }

    /// Takes the tour that was asked for, fetched from its address.
    pub fn take_tour(&mut self, url: &str, html: &str)
        requires
            old(self)@.asked == Some(ActionView::FetchTour(url@)),
        ensures
            final(self)@ == with_tour(
                old(self)@,
                url@,
                title_of(page_of(html@)),
                analyzed(html@),
            ),
    {
        let page = read_page(html);
        let title = extract_title(&page);
        let decision = analyze_tour(html);
        self.take_decision(url, title, decision);
    }

    /// The tours to offer, in the order of rank.
    pub fn finish(self) -> (r: Vec<TourMatch>)
        ensures
            ranking_of(self@.matches, views(r@)),
    {
        rank_matches(self.matches)
    }
}

/// No more listings and tours were seen than may be.
pub open spec fn within_limits(s: CrawlView) -> bool {
    &&& s.seen_pages.finite()
    &&& s.seen_tours.finite()
    &&& s.seen_pages.len() <= s.max_pages
    &&& s.seen_tours.len() <= s.max_tours
}

proof fn lemma_next_new(links: Seq<Seq<char>>, seen: Set<Seq<char>>, max: nat)
    ensures
        next_new(links, seen, max) matches Some((url, rest)) ==> {
            &&& seen.len() < max
            &&& !seen.contains(url)
            &&& links.contains(url)
        },
    decreases links.len(),
{
    if links.len() > 0 && !(seen.len() < max && !seen.contains(links[0])) {
        let rest = links.skip(1);
        lemma_next_new(rest, seen, max);
        if next_new(rest, seen, max) is Some {
            let (url, _) = next_new(rest, seen, max)->0;
            let k = choose|k: int| 0 <= k < rest.len() && rest[k] == url;
            assert(links[k + 1] == url);
        }
    }
}

/// A crawl never fetches more listings or tours than it may.
pub proof fn law_crawl_stays_within_limits(s: CrawlView)
    requires
        within_limits(s),
    ensures
        within_limits(advanced(s).0),
{
    match s.listing {
        Some(listing) => {
            lemma_next_new(listing.tours, s.seen_tours, s.max_tours);
        },
        None => {
            lemma_next_new(s.queue, s.seen_pages, s.max_pages);
        },
    }
}

/// A crawl asks for no address twice: what it asks for was not seen before and is seen from then
/// on, and nothing that was seen is forgotten.
pub proof fn law_crawl_fetches_once(s: CrawlView)
    ensures
        s.seen_pages.subset_of(advanced(s).0.seen_pages),
        s.seen_tours.subset_of(advanced(s).0.seen_tours),
        advanced(s).1 matches ActionView::FetchListing(url) ==> !s.seen_pages.contains(url)
            && advanced(s).0.seen_pages.contains(url),
        advanced(s).1 matches ActionView::FetchTour(url) ==> !s.seen_tours.contains(url)
            && advanced(s).0.seen_tours.contains(url),
{
    match s.listing {
        Some(listing) => {
            lemma_next_new(listing.tours, s.seen_tours, s.max_tours);
        },
        None => {
            lemma_next_new(s.queue, s.seen_pages, s.max_pages);
        },
    }
}

/// How much a crawl may still do: two steps for each listing, its fetching and its end, and one for
/// each tour.
pub open spec fn work_left(s: CrawlView) -> int {
    2 * (s.max_pages - s.seen_pages.len()) + (s.max_tours - s.seen_tours.len()) + (
    if s.listing is Some {
        1int
    } else {
        0int
    })
}

/// A crawl comes to an end: each step leaves less to do, also when the listing that it asked for is
/// handed to it.
pub proof fn law_crawl_comes_to_an_end(s: CrawlView)
    requires
        within_limits(s),
    ensures
        work_left(s) >= 0,
        match advanced(s).1 {
            ActionView::FetchListing(_) => work_left(advanced(s).0) == work_left(s) - 2,
            ActionView::FetchTour(_) => work_left(advanced(s).0) == work_left(s) - 1,
            ActionView::Pause => work_left(advanced(s).0) == work_left(s) - 1,
            ActionView::Finish => work_left(advanced(s).0) == work_left(s),
        },
{
    match s.listing {
        Some(listing) => {
            lemma_next_new(listing.tours, s.seen_tours, s.max_tours);
        },
        None => {
            lemma_next_new(s.queue, s.seen_pages, s.max_pages);
        },
    }
}

/// The tours to offer all cost at most 3000 dollars and score between 100 and 240.
pub open spec fn offers_fit(matches: Seq<MatchView>) -> bool {
    forall|i: int|
        0 <= i < matches.len() ==> (#[trigger] matches[i]).price_usd <= 3000 && 100
            <= matches[i].score <= 240
}

/// Whatever tour is judged next, by whatever its page says, the tours to offer all cost at most
/// 3000 dollars and score between 100 and 240.
pub proof fn law_offers_fit(
    matches: Seq<MatchView>,
    url: Seq<char>,
    title: Option<Seq<char>>,
    text: Seq<char>,
    price: Option<u32>,
    red_day: bool,
)
    requires
        offers_fit(matches),
    ensures
        offers_fit(with_decision(matches, url, title, judged(text, price, red_day))),
{
    law_offered_tours(text, price, red_day);
}

/// A step of a crawl: it is asked what to do next, or handed what it asked for.
pub enum CrawlStep {
    Advance,
    Listing(ListingView),
    Tour { title: Option<Seq<char>>, decision: DecisionView },
}

/// A crawl after a step. What it did not ask for cannot be handed to it.
pub open spec fn crawl_step(s: CrawlView, step: CrawlStep) -> CrawlView {
    match (step, s.asked) {
        (CrawlStep::Advance, _) => advanced(s).0,
        (CrawlStep::Listing(listing), Some(ActionView::FetchListing(_))) => with_listing(
            s,
            listing,
        ),
        (CrawlStep::Tour { title, decision }, Some(ActionView::FetchTour(url))) => with_tour(
            s,
            url,
            title,
            decision,
        ),
        _ => s,
    }
}

/// A crawl after these steps.
pub open spec fn crawled(s: CrawlView, steps: Seq<CrawlStep>) -> CrawlView
    decreases steps.len(),
{
    if steps.len() == 0 {
        s
    } else {
        crawl_step(crawled(s, steps.drop_last()), steps.last())
    }
}

/// The addresses of the tours to offer.
pub open spec fn offered(matches: Seq<MatchView>) -> Seq<Seq<char>> {
    Seq::new(matches.len(), |i: int| matches[i].url)
}

/// A crawl is sound: it keeps its limits; the tours to offer were all fetched, and no two have one
/// address; and a tour that was asked for is not among them before it is handed in.
pub open spec fn sound(s: CrawlView) -> bool {
    &&& within_limits(s)
    &&& offered(s.matches).no_duplicates()
    &&& forall|i: int|
        0 <= i < s.matches.len() ==> s.seen_tours.contains((#[trigger] s.matches[i]).url)
    &&& s.asked matches Some(ActionView::FetchTour(url)) ==> {
        &&& s.seen_tours.contains(url)
        &&& !offered(s.matches).contains(url)
    }
}

proof fn lemma_offered_seen(s: CrawlView, url: Seq<char>)
    requires
        sound(s),
        !s.seen_tours.contains(url),
    ensures
        !offered(s.matches).contains(url),
{
    let urls = offered(s.matches);
    if urls.contains(url) {
        let k = choose|k: int| 0 <= k < urls.len() && urls[k] == url;
        assert(s.seen_tours.contains(s.matches[k].url));
    }
}

proof fn lemma_step_keeps_sound(s: CrawlView, step: CrawlStep)
    requires
        sound(s),
    ensures
        sound(crawl_step(s, step)),
{
    let t = crawl_step(s, step);
    match (step, s.asked) {
        (CrawlStep::Advance, _) => {
            law_crawl_stays_within_limits(s);
            law_crawl_fetches_once(s);
            assert(t.matches == s.matches);
            assert forall|i: int| 0 <= i < t.matches.len() implies t.seen_tours.contains(
                (#[trigger] t.matches[i]).url,
            ) by {
                assert(s.seen_tours.contains(s.matches[i].url));
            }
            if let Some(ActionView::FetchTour(url)) = t.asked {
                lemma_offered_seen(s, url);
            }
        },
        (CrawlStep::Tour { title, decision }, Some(ActionView::FetchTour(url))) => {
            if let DecisionView::Keep(tour) = decision {
                let before = offered(s.matches);
                let urls = offered(t.matches);
                assert(urls =~= before.push(url));
                assert forall|i: int, j: int|
                    0 <= i < urls.len() && 0 <= j < urls.len() && i != j implies urls[i]
                    != urls[j] by {
                    if i < before.len() && j < before.len() {
                        assert(before[i] != before[j]);
                    } else if i < before.len() {
                        assert(before.contains(before[i]));
                    } else {
                        assert(before.contains(before[j]));
                    }
                }
                assert forall|i: int| 0 <= i < t.matches.len() implies t.seen_tours.contains(
                    (#[trigger] t.matches[i]).url,
                ) by {
                    if i < s.matches.len() {
                        assert(t.matches[i] == s.matches[i]);
                    }
                }
            }
        },
        _ => {},
    }
}

/// Whatever its pages hold, a crawl is sound after any steps, and it never offers more tours than
/// may be fetched.
pub proof fn law_crawl_is_sound(
    start_url: Seq<char>,
    max_pages: nat,
    max_tours: nat,
    steps: Seq<CrawlStep>,
)
    ensures
        ({
            let s = crawled(begun(start_url, max_pages, max_tours), steps);
            &&& sound(s)
            &&& s.max_pages == max_pages
            &&& s.max_tours == max_tours
            &&& s.matches.len() <= max_tours
        }),
    decreases steps.len(),
{
    let s = crawled(begun(start_url, max_pages, max_tours), steps);
    if steps.len() > 0 {
        law_crawl_is_sound(start_url, max_pages, max_tours, steps.drop_last());
        lemma_step_keeps_sound(
            crawled(begun(start_url, max_pages, max_tours), steps.drop_last()),
            steps.last(),
        );
    }
    let urls = offered(s.matches);
    urls.unique_seq_to_set();
    assert(urls.to_set().subset_of(s.seen_tours)) by {
        assert forall|url: Seq<char>| urls.to_set().contains(url) implies s.seen_tours.contains(
            url,
        ) by {
            let k = choose|k: int| 0 <= k < urls.len() && urls[k] == url;
            assert(s.seen_tours.contains(s.matches[k].url));
        }
    }
    vstd::set_lib::lemma_len_subset(urls.to_set(), s.seen_tours);
}

/// The next new address is the first that was not seen, with all behind it left for later; there is
/// none exactly where all were seen or as many were seen as may be.
pub proof fn law_next_new(links: Seq<Seq<char>>, seen: Set<Seq<char>>, max: nat)
    ensures
        match next_new(links, seen, max) {
            Some((url, rest)) => seen.len() < max && exists|i: int|
                0 <= i < links.len() && #[trigger] links[i] == url && !seen.contains(url) && rest
                    == links.skip(i + 1) && forall|j: int|
                    0 <= j < i ==> seen.contains(#[trigger] links[j]),
            None => seen.len() >= max || forall|j: int|
                0 <= j < links.len() ==> seen.contains(#[trigger] links[j]),
        },
    decreases links.len(),
{
    if links.len() > 0 {
        if seen.len() < max && !seen.contains(links[0]) {
            assert(links[0] == links[0]);
        } else {
            let tail = links.skip(1);
            law_next_new(tail, seen, max);
            match next_new(tail, seen, max) {
                Some((url, rest)) => {
                    let i = choose|i: int|
                        0 <= i < tail.len() && #[trigger] tail[i] == url && !seen.contains(url)
                            && rest == tail.skip(i + 1) && forall|j: int|
                            0 <= j < i ==> seen.contains(#[trigger] tail[j]);
                    assert(links[i + 1] == url);
                    assert(links.skip(i + 2) =~= tail.skip(i + 1));
                    assert forall|j: int| 0 <= j < i + 1 implies seen.contains(
                        #[trigger] links[j],
                    ) by {
                        if j > 0 {
                            assert(tail[j - 1] == links[j]);
                        }
                    }
                },
                None => {
                    if seen.len() < max {
                        assert forall|j: int| 0 <= j < links.len() implies seen.contains(
                            #[trigger] links[j],
                        ) by {
                            if j > 0 {
                                assert(tail[j - 1] == links[j]);
                            }
                        }
                    }
                },
            }
        }
    }
}

proof fn lemma_unseen(links: Seq<Seq<char>>, seen: Set<Seq<char>>, url: Seq<char>)
    ensures
        unseen(links, seen).contains(url) <==> links.contains(url) && !seen.contains(url),
    decreases links.len(),
{
    reveal(Seq::filter);
    let keep = |x: Seq<char>| !seen.contains(x);
    if links.len() > 0 {
        let head = links.drop_last();
        let last = links.last();
        lemma_unseen(head, seen, url);
        let before = unseen(head, seen);
        let all = unseen(links, seen);
        if links.contains(url) && url != last {
            let k = choose|k: int| 0 <= k < links.len() && links[k] == url;
            assert(head[k] == url);
        }
        if head.contains(url) {
            let k = choose|k: int| 0 <= k < head.len() && head[k] == url;
            assert(links[k] == url);
        }
        assert(links[links.len() - 1] == last);
        if keep(last) {
            assert(all == before.push(last));
            assert(all[all.len() - 1] == last);
            if before.contains(url) {
                let k = choose|k: int| 0 <= k < before.len() && before[k] == url;
                assert(all[k] == url);
            }
            if all.contains(url) && url != last {
                let k = choose|k: int| 0 <= k < all.len() && all[k] == url;
                assert(before[k] == url);
            }
        } else {
            assert(all == before);
        }
    }
}

/// A step of a crawl that works off a listing: it asks for the first tour that was not fetched,
/// where one may be; and else the listing is done, and what was waiting waits on, with every next
/// listing behind it that was not fetched.
pub proof fn law_working_off_a_listing(s: CrawlView, listing: ListingView, url: Seq<char>)
    requires
        s.listing == Some(listing),
    ensures
        match advanced(s).1 {
            ActionView::FetchTour(tour) => {
                &&& s.seen_tours.len() < s.max_tours
                &&& listing.tours.contains(tour)
                &&& !s.seen_tours.contains(tour)
                &&& advanced(s).0.seen_tours == s.seen_tours.insert(tour)
                &&& advanced(s).0.seen_pages == s.seen_pages
                &&& advanced(s).0.queue == s.queue
            },
            ActionView::Pause => {
                &&& s.seen_tours.len() >= s.max_tours || forall|i: int|
                    0 <= i < listing.tours.len() ==> s.seen_tours.contains(
                        #[trigger] listing.tours[i],
                    )
                &&& advanced(s).0.queue == s.queue + listing.next.filter(
                    |next: Seq<char>| !s.seen_pages.contains(next),
                )
                &&& advanced(s).0.queue.contains(url) <==> s.queue.contains(url) || (
                listing.next.contains(url) && !s.seen_pages.contains(url))
                &&& advanced(s).0.seen_pages == s.seen_pages
                &&& advanced(s).0.seen_tours == s.seen_tours
                &&& advanced(s).0.listing is None
            },
            _ => false,
        },
        advanced(s).0.matches == s.matches,
{
    law_next_new(listing.tours, s.seen_tours, s.max_tours);
    lemma_next_new(listing.tours, s.seen_tours, s.max_tours);
    lemma_unseen(listing.next, s.seen_pages, url);
    lemma_contains_sum(s.queue, unseen(listing.next, s.seen_pages), url);
}

proof fn lemma_contains_sum(a: Seq<Seq<char>>, b: Seq<Seq<char>>, x: Seq<char>)
    ensures
        (a + b).contains(x) <==> a.contains(x) || b.contains(x),
{
    let all = a + b;
    if a.contains(x) {
        let k = choose|k: int| 0 <= k < a.len() && a[k] == x;
        assert(all[k] == x);
    }
    if b.contains(x) {
        let k = choose|k: int| 0 <= k < b.len() && b[k] == x;
        assert(all[a.len() + k] == x);
    }
    if all.contains(x) {
        let k = choose|k: int| 0 <= k < all.len() && all[k] == x;
        if k < a.len() {
            assert(a[k] == x);
        } else {
            assert(b[k - a.len()] == x);
        }
    }
}

/// A step of a crawl between listings: it asks for the first waiting listing that was not fetched,
/// where one may be, and else it is over.
pub proof fn law_between_listings(s: CrawlView)
    requires
        s.listing is None,
    ensures
        match advanced(s).1 {
            ActionView::FetchListing(url) => {
                &&& s.seen_pages.len() < s.max_pages
                &&& s.queue.contains(url)
                &&& !s.seen_pages.contains(url)
                &&& advanced(s).0.seen_pages == s.seen_pages.insert(url)
                &&& advanced(s).0.seen_tours == s.seen_tours
            },
            ActionView::Finish => {
                &&& s.seen_pages.len() >= s.max_pages || forall|i: int|
                    0 <= i < s.queue.len() ==> s.seen_pages.contains(#[trigger] s.queue[i])
                &&& advanced(s).0.seen_pages == s.seen_pages
                &&& advanced(s).0.seen_tours == s.seen_tours
            },
            _ => false,
        },
        advanced(s).0.matches == s.matches,
{
    law_next_new(s.queue, s.seen_pages, s.max_pages);
    lemma_next_new(s.queue, s.seen_pages, s.max_pages);
}

/// What a tour that was fetched changes: one that is kept is offered behind those before it, under
/// its address, with what its page tells, and with its address in place of a title that it lacks;
/// one that is dropped is not offered. Nothing else changes.
pub proof fn law_taken_tour(
    s: CrawlView,
    url: Seq<char>,
    title: Option<Seq<char>>,
    decision: DecisionView,
)
    ensures
        ({
            let t = with_tour(s, url, title, decision);
            &&& decision is Drop ==> t.matches == s.matches
            &&& decision matches DecisionView::Keep(tour) ==> {
                &&& t.matches.len() == s.matches.len() + 1
                &&& forall|i: int| 0 <= i < s.matches.len() ==> t.matches[i] == s.matches[i]
                &&& t.matches.last().url == url
                &&& title matches Some(text) ==> t.matches.last().title == text
                &&& title is None ==> t.matches.last().title == url
                &&& t.matches.last().price_usd == tour.price_usd
                &&& t.matches.last().accommodation_level == tour.accommodation_level
                &&& t.matches.last().has_central_serengeti == tour.has_central_serengeti
                &&& t.matches.last().route_assessment == tour.route_assessment
                &&& t.matches.last().green_keywords == tour.green_keywords
                &&& t.matches.last().score == tour.score
            }
            &&& t.queue == s.queue
            &&& t.seen_pages == s.seen_pages
            &&& t.seen_tours == s.seen_tours
            &&& t.listing == s.listing
            &&& t.max_pages == s.max_pages
            &&& t.max_tours == s.max_tours
        }),
{
}

/// The listings that were handed to a crawl when it asked for one.
pub open spec fn handed_in(s: CrawlView, steps: Seq<CrawlStep>) -> Seq<ListingView>
    decreases steps.len(),
{
    if steps.len() == 0 {
        Seq::empty()
    } else {
        let head = steps.drop_last();
        match (steps.last(), crawled(s, head).asked) {
            (CrawlStep::Listing(listing), Some(ActionView::FetchListing(_))) => handed_in(
                s,
                head,
            ).push(listing),
            _ => handed_in(s, head),
        }
    }
}

/// A crawl has lost nothing: as long as more listings may be fetched, the first one and each next
/// listing of each that was handed in was fetched or is yet to be looked at, and so is, as long as
/// more tours may be fetched, each tour of each.
spec fn nothing_lost(s: CrawlView, start_url: Seq<char>, listings: Seq<ListingView>) -> bool {
    &&& s.asked matches Some(ActionView::FetchListing(_)) ==> s.listing is None
    &&& s.asked == Some(ActionView::Finish) ==> s.listing is None && s.queue.len() == 0
    &&& s.seen_pages.len() < s.max_pages ==> {
        &&& waits_or_seen(s, start_url)
        &&& forall|i: int, url: Seq<char>|
            #![trigger listings[i].next.contains(url)]
            0 <= i < listings.len() && listings[i].next.contains(url) ==> waits_or_seen(s, url)
    }
    &&& s.seen_tours.len() < s.max_tours ==> forall|i: int, url: Seq<char>|
        #![trigger listings[i].tours.contains(url)]
        0 <= i < listings.len() && listings[i].tours.contains(url) ==> tour_waits_or_seen(s, url)
}

spec fn waits_or_seen(s: CrawlView, url: Seq<char>) -> bool {
    s.seen_pages.contains(url) || s.queue.contains(url) || (s.listing matches Some(listing)
        && listing.next.contains(url))
}

spec fn tour_waits_or_seen(s: CrawlView, url: Seq<char>) -> bool {
    s.seen_tours.contains(url) || (s.listing matches Some(listing) && listing.tours.contains(url))
}

proof fn lemma_rest_or_seen(links: Seq<Seq<char>>, seen: Set<Seq<char>>, max: nat, x: Seq<char>)
    requires
        links.contains(x),
    ensures
        match next_new(links, seen, max) {
            Some((url, rest)) => x == url || seen.contains(x) || rest.contains(x),
            None => seen.len() >= max || seen.contains(x),
        },
{
    law_next_new(links, seen, max);
    let k = choose|k: int| 0 <= k < links.len() && links[k] == x;
    if let Some((url, rest)) = next_new(links, seen, max) {
        let i = choose|i: int|
            0 <= i < links.len() && #[trigger] links[i] == url && !seen.contains(url) && rest
                == links.skip(i + 1) && forall|j: int|
                0 <= j < i ==> seen.contains(#[trigger] links[j]);
        if k > i {
            assert(rest[k - i - 1] == x);
        }
    }
}

proof fn lemma_advance_loses_nothing(s: CrawlView, start_url: Seq<char>, listings: Seq<ListingView>)
    requires
        within_limits(s),
        nothing_lost(s, start_url, listings),
    ensures
        nothing_lost(advanced(s).0, start_url, listings),
{
    let t = advanced(s).0;
    assert forall|url: Seq<char>| #[trigger]
        waits_or_seen(s, url) && t.seen_pages.len() < t.max_pages implies waits_or_seen(t, url) by {
        match s.listing {
            Some(listing) => {
                lemma_unseen(listing.next, s.seen_pages, url);
                lemma_contains_sum(s.queue, unseen(listing.next, s.seen_pages), url);
            },
            None => {
                if s.queue.contains(url) {
                    lemma_rest_or_seen(s.queue, s.seen_pages, s.max_pages, url);
                }
            },
        }
    }
    assert forall|url: Seq<char>| #[trigger]
        tour_waits_or_seen(s, url) && t.seen_tours.len() < t.max_tours implies tour_waits_or_seen(
        t,
        url,
    ) by {
        if let Some(listing) = s.listing {
            if listing.tours.contains(url) {
                lemma_rest_or_seen(listing.tours, s.seen_tours, s.max_tours, url);
            }
        }
    }
    law_crawl_stays_within_limits(s);
    vstd::set_lib::lemma_len_subset(s.seen_pages, t.seen_pages);
    vstd::set_lib::lemma_len_subset(s.seen_tours, t.seen_tours);
    if t.seen_pages.len() < t.max_pages {
        assert(waits_or_seen(s, start_url));
        assert forall|i: int, url: Seq<char>|
            #![trigger listings[i].next.contains(url)]
            0 <= i < listings.len() && listings[i].next.contains(url) implies waits_or_seen(
            t,
            url,
        ) by {
            assert(waits_or_seen(s, url));
        }
    }
    if t.seen_tours.len() < t.max_tours {
        assert forall|i: int, url: Seq<char>|
            #![trigger listings[i].tours.contains(url)]
            0 <= i < listings.len() && listings[i].tours.contains(url) implies tour_waits_or_seen(
            t,
            url,
        ) by {
            assert(tour_waits_or_seen(s, url));
        }
    }
}

proof fn lemma_crawl_loses_nothing(
    start_url: Seq<char>,
    max_pages: nat,
    max_tours: nat,
    steps: Seq<CrawlStep>,
)
    ensures
        nothing_lost(
            crawled(begun(start_url, max_pages, max_tours), steps),
            start_url,
            handed_in(begun(start_url, max_pages, max_tours), steps),
        ),
    decreases steps.len(),
{
    let first = begun(start_url, max_pages, max_tours);
    if steps.len() == 0 {
        assert(first.queue[0] == start_url);
        assert(waits_or_seen(first, start_url));
    } else {
        let head = steps.drop_last();
        let s = crawled(first, head);
        let t = crawled(first, steps);
        let before = handed_in(first, head);
        let after = handed_in(first, steps);
        lemma_crawl_loses_nothing(start_url, max_pages, max_tours, head);
        law_crawl_is_sound(start_url, max_pages, max_tours, head);
        match (steps.last(), s.asked) {
            (CrawlStep::Advance, _) => {
                lemma_advance_loses_nothing(s, start_url, before);
            },
            (CrawlStep::Listing(listing), Some(ActionView::FetchListing(_))) => {
                assert(s.listing is None);
                assert(waits_or_seen(s, start_url) ==> waits_or_seen(t, start_url));
                assert forall|i: int, url: Seq<char>|
                    #![trigger after[i].next.contains(url)]
                    0 <= i < after.len() && after[i].next.contains(url) && t.seen_pages.len()
                        < t.max_pages implies waits_or_seen(t, url) by {
                    if i < before.len() {
                        assert(before[i].next.contains(url));
                        assert(waits_or_seen(s, url));
                    }
                }
                assert forall|i: int, url: Seq<char>|
                    #![trigger after[i].tours.contains(url)]
                    0 <= i < after.len() && after[i].tours.contains(url) && t.seen_tours.len()
                        < t.max_tours implies tour_waits_or_seen(t, url) by {
                    if i < before.len() {
                        assert(before[i].tours.contains(url));
                        assert(tour_waits_or_seen(s, url));
                    }
                }
            },
            _ => {
                assert(after == before);
                assert(t.queue == s.queue && t.listing == s.listing);
                assert(t.seen_pages == s.seen_pages && t.seen_tours == s.seen_tours);
                assert(forall|url: Seq<char>| waits_or_seen(s, url) ==> waits_or_seen(t, url));
                assert(forall|url: Seq<char>|
                    tour_waits_or_seen(s, url) ==> tour_waits_or_seen(t, url));
            },
        }
    }
}

/// A crawl that is over is complete. Where fewer listings were fetched than may be, the first one was
/// fetched, and every next listing of every listing that was handed in; and where fewer tours were
/// fetched than may be, every tour of every listing that was handed in was.
pub proof fn law_crawl_is_complete(
    start_url: Seq<char>,
    max_pages: nat,
    max_tours: nat,
    steps: Seq<CrawlStep>,
    url: Seq<char>,
    i: int,
)
    requires
        crawled(begun(start_url, max_pages, max_tours), steps).asked == Some(ActionView::Finish),
    ensures
        ({
            let s = crawled(begun(start_url, max_pages, max_tours), steps);
            let listings = handed_in(begun(start_url, max_pages, max_tours), steps);
            &&& s.seen_pages.len() < max_pages ==> s.seen_pages.contains(start_url)
            &&& 0 <= i < listings.len() && s.seen_pages.len() < max_pages
                && listings[i].next.contains(url) ==> s.seen_pages.contains(url)
            &&& 0 <= i < listings.len() && s.seen_tours.len() < max_tours
                && listings[i].tours.contains(url) ==> s.seen_tours.contains(url)
        }),
{
    let s = crawled(begun(start_url, max_pages, max_tours), steps);
    let listings = handed_in(begun(start_url, max_pages, max_tours), steps);
    lemma_crawl_loses_nothing(start_url, max_pages, max_tours, steps);
    law_crawl_is_sound(start_url, max_pages, max_tours, steps);
    if s.seen_pages.len() < max_pages {
        assert(waits_or_seen(s, start_url));
        if 0 <= i < listings.len() && listings[i].next.contains(url) {
            assert(waits_or_seen(s, url));
        }
    }
    if 0 <= i < listings.len() && s.seen_tours.len() < max_tours && listings[i].tours.contains(
        url,
    ) {
        assert(tour_waits_or_seen(s, url));
    }
}

/// A crawl begins with the first listing waiting and nothing fetched; and what the listing that it
/// asked for leads to is worked off next, with all else as it was.
pub proof fn law_beginning_and_listing(
    start_url: Seq<char>,
    max_pages: nat,
    max_tours: nat,
    s: CrawlView,
    listing: ListingView,
    url: String,
)
    ensures
        ({
            let first = begun(start_url, max_pages, max_tours);
            &&& first.queue == seq![start_url]
            &&& first.seen_pages == Set::<Seq<char>>::empty()
            &&& first.seen_tours == Set::<Seq<char>>::empty()
            &&& first.matches.len() == 0
            &&& first.listing is None
            &&& first.max_pages == max_pages
            &&& first.max_tours == max_tours
            &&& max_pages > 0 ==> advanced(first).1 == ActionView::FetchListing(start_url)
        }),
        ({
            let t = with_listing(s, listing);
            &&& t.listing == Some(listing)
            &&& t.queue == s.queue
            &&& t.seen_pages == s.seen_pages
            &&& t.seen_tours == s.seen_tours
            &&& t.matches == s.matches
            &&& t.max_pages == s.max_pages
            &&& t.max_tours == s.max_tours
        }),
        CrawlAction::FetchListing(url)@ == ActionView::FetchListing(url@),
        CrawlAction::FetchTour(url)@ == ActionView::FetchTour(url@),
        CrawlAction::Pause@ == ActionView::Pause,
        CrawlAction::Finish@ == ActionView::Finish,
{
    let first = begun(start_url, max_pages, max_tours);
    assert(first.queue[0] == start_url);
}

} // verus!
