//! Ranking the tours that are offered.

use crate::gather::views;
use crate::text::texts;
use vstd::prelude::*;

verus! {

/// A tour that is offered.
#[derive(Debug)]
pub struct TourMatch {
    /// The title of its page.
    pub title: String,
    /// The address of its page.
    pub url: String,
    /// The price.
    pub price_usd: u32,
    /// The level of the accommodation.
    pub accommodation_level: String,
    /// Whether the tour visits the central Serengeti.
    pub has_central_serengeti: bool,
    /// What to think of the route.
    pub route_assessment: String,
    /// The keywords found that speak for the tour.
    pub green_keywords: Vec<String>,
    /// How well the tour fits.
    pub score: u32,
}

/// A tour that is offered, in a contract.
pub struct MatchView {
    pub title: Seq<char>,
    pub url: Seq<char>,
    pub price_usd: u32,
    pub accommodation_level: Seq<char>,
    pub has_central_serengeti: bool,
    pub route_assessment: Seq<char>,
    pub green_keywords: Seq<Seq<char>>,
    pub score: u32,
}

impl View for TourMatch {
    type V = MatchView;

    open spec fn view(&self) -> MatchView {
        MatchView {
            title: self.title@,
            url: self.url@,
            price_usd: self.price_usd,
            accommodation_level: self.accommodation_level@,
            has_central_serengeti: self.has_central_serengeti,
            route_assessment: self.route_assessment@,
            green_keywords: texts(self.green_keywords@),
            score: self.score,
        }
    }
}

/// Tour `a` ranks before tour `b`: it fits better, or as well at a lower price.
pub open spec fn ranks_before(a: MatchView, b: MatchView) -> bool {
    a.score > b.score || (a.score == b.score && a.price_usd < b.price_usd)
}

/// No tour stands behind one that it ranks before.
pub open spec fn in_rank_order(s: Seq<MatchView>) -> bool {
    forall|i: int, j: int|
        0 <= i < j < s.len() ==> !ranks_before(#[trigger] s[j], #[trigger] s[i])
}

/// The tours with this score and this price.
pub open spec fn of_rank(score: u32, price_usd: u32) -> spec_fn(MatchView) -> bool {
    |m: MatchView| m.score == score && m.price_usd == price_usd
}

/// `r` is `s` in the order of rank: it holds the same tours, and those of equal rank in the order in
/// which `s` has them.
pub open spec fn ranking_of(s: Seq<MatchView>, r: Seq<MatchView>) -> bool {
    &&& in_rank_order(r)
    &&& r.to_multiset() == s.to_multiset()
    &&& forall|score: u32, price_usd: u32|
        #![trigger of_rank(score, price_usd)]
        r.filter(of_rank(score, price_usd)) == s.filter(of_rank(score, price_usd))
}

proof fn lemma_filter_none(s: Seq<MatchView>, keep: spec_fn(MatchView) -> bool)
    requires
        forall|i: int| 0 <= i < s.len() ==> !keep(#[trigger] s[i]),
    ensures
        s.filter(keep) == Seq::<MatchView>::empty(),
    decreases s.len(),
{
    reveal(Seq::filter);
    if s.len() > 0 {
        let head = s.drop_last();
        assert forall|i: int| 0 <= i < head.len() implies !keep(#[trigger] head[i]) by {
            assert(head[i] == s[i]);
        }
        lemma_filter_none(head, keep);
        assert(!keep(s[s.len() - 1]));
    }
}

/// Putting a tour behind all that it does not rank before keeps the order of rank.
proof fn lemma_insert_ranked(s: Seq<MatchView>, at: int, x: MatchView)
    requires
        in_rank_order(s),
        0 <= at <= s.len(),
        at > 0 ==> !ranks_before(x, s[at - 1]),
        forall|i: int| at <= i < s.len() ==> ranks_before(x, #[trigger] s[i]),
    ensures
        in_rank_order(s.insert(at, x)),
        s.insert(at, x).to_multiset() == s.to_multiset().insert(x),
        forall|score: u32, price_usd: u32|
            #![trigger of_rank(score, price_usd)]
            s.insert(at, x).filter(of_rank(score, price_usd)) == s.push(x).filter(
                of_rank(score, price_usd),
            ),
{
    let t = s.insert(at, x);
    assert forall|i: int, j: int| 0 <= i < j < t.len() implies !ranks_before(
        #[trigger] t[j],
        #[trigger] t[i],
    ) by {
        if j == at && i < at - 1 {
            assert(!ranks_before(s[at - 1], s[i]));
        } else if i == at {
            assert(ranks_before(x, s[j - 1]));
        }
    }
    let front = s.take(at);
    let back = s.skip(at);
    assert(t =~= front.push(x) + back);
    assert(s =~= front + back);
    vstd::seq_lib::to_multiset_insert(s, at, x);
    assert forall|score: u32, price_usd: u32|
        #![trigger of_rank(score, price_usd)]
        t.filter(of_rank(score, price_usd)) == s.push(x).filter(of_rank(score, price_usd)) by {
        let keep = of_rank(score, price_usd);
        Seq::filter_distributes_over_add(front.push(x), back, keep);
        Seq::filter_distributes_over_add(front, back, keep);
        reveal(Seq::filter);
        assert(front.push(x).drop_last() =~= front);
        assert(s.push(x).drop_last() =~= s);
        if keep(x) {
            assert forall|i: int| 0 <= i < back.len() implies !keep(#[trigger] back[i]) by {
                assert(back[i] == s[at + i]);
            }
            lemma_filter_none(back, keep);
            assert(front.filter(keep).push(x) + back.filter(keep) =~= (front.filter(keep)
                + back.filter(keep)).push(x));
        }
    }
}

/// Whether tour `a` ranks before tour `b`.
fn goes_before(a: &TourMatch, b: &TourMatch) -> (r: bool)
    ensures
        r == ranks_before(a@, b@),
{
    a.score > b.score || (a.score == b.score && a.price_usd < b.price_usd)
}

/// The tours in the order of rank, those of equal rank as they come.
pub fn rank_matches(matches: Vec<TourMatch>) -> (r: Vec<TourMatch>)
    ensures
        ranking_of(views(matches@), views(r@)),
{
    let ghost all = views(matches@);
    let mut out: Vec<TourMatch> = Vec::new();
    assert(views(out@) =~= all.take(0));
    for m in it: matches
        invariant
            it.seq() == matches@,
            all == views(matches@),
            ranking_of(all.take(it.index()), views(out@)),
    {
        let ghost before = views(out@);
        let ghost x = m@;
        let mut at: usize = out.len();
        while at > 0 && goes_before(&m, &out[at - 1])
            invariant
                at <= out@.len(),
                before == views(out@),
                in_rank_order(before),
                x == m@,
                forall|i: int| at <= i < before.len() ==> ranks_before(x, #[trigger] before[i]),
            decreases at,
        {
            at -= 1;
        }
        proof {
            assert(at > 0 ==> before[at - 1] == out@[at - 1]@);
            lemma_insert_ranked(before, at as int, x);
        }
        out.insert(at, m);
        proof {
            assert(views(out@) =~= before.insert(at as int, x));
            let done = all.take(it.index());
            let next = all.take(it.index() + 1);
            assert(next =~= done.push(x));
            assert(next.drop_last() =~= done);
            vstd::seq_lib::to_multiset_build(done, x);
            assert(before.push(x).drop_last() =~= before);
            reveal(Seq::filter);
            assert forall|score: u32, price_usd: u32|
                #![trigger of_rank(score, price_usd)]
                views(out@).filter(of_rank(score, price_usd)) == next.filter(
                    of_rank(score, price_usd),
                ) by {}
        }
    }
    assert(all.take(all.len() as int) =~= all);
    out
}

/// Tours in the order of rank that agree in the tours of each rank are the same.
proof fn lemma_same_ranking(a: Seq<MatchView>, b: Seq<MatchView>)
    requires
        in_rank_order(a),
        in_rank_order(b),
        forall|score: u32, price_usd: u32|
            #![trigger of_rank(score, price_usd)]
            a.filter(of_rank(score, price_usd)) == b.filter(of_rank(score, price_usd)),
    ensures
        a == b,
    decreases a.len(),
{
    if a.len() == 0 || b.len() == 0 {
        if a.len() > 0 {
            lemma_filter_has(a, of_rank(a.last().score, a.last().price_usd), a.len() - 1);
            lemma_filter_none(b, of_rank(a.last().score, a.last().price_usd));
        }
        if b.len() > 0 {
            lemma_filter_has(b, of_rank(b.last().score, b.last().price_usd), b.len() - 1);
            lemma_filter_none(a, of_rank(b.last().score, b.last().price_usd));
        }
        assert(a =~= b);
    } else {
        let x = a.last();
        let y = b.last();
        let kx = of_rank(x.score, x.price_usd);
        let ky = of_rank(y.score, y.price_usd);
        lemma_filter_has(a, kx, a.len() - 1);
        lemma_filter_has(b, ky, b.len() - 1);
        lemma_filter_from(b, kx);
        lemma_filter_from(a, ky);
        let i = choose|i: int| 0 <= i < b.len() && kx(#[trigger] b[i]);
        let j = choose|j: int| 0 <= j < a.len() && ky(#[trigger] a[j]);
        assert(!ranks_before(b[b.len() - 1], b[i]) || i == b.len() - 1);
        assert(!ranks_before(a[a.len() - 1], a[j]) || j == a.len() - 1);
        assert(kx(y));
        reveal(Seq::filter);
        let a1 = a.drop_last();
        let b1 = b.drop_last();
        assert(a.filter(kx) == a1.filter(kx).push(x));
        assert(b.filter(kx) == b1.filter(kx).push(y));
        assert(a.filter(kx).last() == x);
        assert(b.filter(kx).last() == y);
        assert(x == y);
        assert forall|score: u32, price_usd: u32|
            #![trigger of_rank(score, price_usd)]
            a1.filter(of_rank(score, price_usd)) == b1.filter(of_rank(score, price_usd)) by {
            let k = of_rank(score, price_usd);
            if k(x) {
                assert(a1.filter(k) =~= a.filter(k).drop_last());
                assert(b1.filter(k) =~= b.filter(k).drop_last());
            } else {
                assert(a1.filter(k) == a.filter(k));
                assert(b1.filter(k) == b.filter(k));
            }
        }
        assert forall|i: int, j: int| 0 <= i < j < a1.len() implies !ranks_before(
            #[trigger] a1[j],
            #[trigger] a1[i],
        ) by {
            assert(!ranks_before(a[j], a[i]));
        }
        assert forall|i: int, j: int| 0 <= i < j < b1.len() implies !ranks_before(
            #[trigger] b1[j],
            #[trigger] b1[i],
        ) by {
            assert(!ranks_before(b[j], b[i]));
        }
        lemma_same_ranking(a1, b1);
        assert(a =~= a1.push(x));
        assert(b =~= b1.push(y));
    }
}

proof fn lemma_filter_has(s: Seq<MatchView>, keep: spec_fn(MatchView) -> bool, i: int)
    requires
        0 <= i < s.len(),
        keep(s[i]),
    ensures
        s.filter(keep).len() > 0,
    decreases s.len(),
{
    reveal(Seq::filter);
    if i < s.len() - 1 {
        assert(s.drop_last()[i] == s[i]);
        lemma_filter_has(s.drop_last(), keep, i);
    }
}

proof fn lemma_filter_from(s: Seq<MatchView>, keep: spec_fn(MatchView) -> bool)
    ensures
        s.filter(keep).len() > 0 ==> exists|i: int| 0 <= i < s.len() && keep(#[trigger] s[i]),
    decreases s.len(),
{
    reveal(Seq::filter);
    if s.len() > 0 {
        let head = s.drop_last();
        lemma_filter_from(head, keep);
        if keep(s.last()) {
            assert(keep(s[s.len() - 1]));
        } else if s.filter(keep).len() > 0 {
            let k = choose|k: int| 0 <= k < head.len() && keep(#[trigger] head[k]);
            assert(keep(s[k]));
        }
    }
}

/// Tours can be ranked in one way only.
pub proof fn law_ranking_is_unique(s: Seq<MatchView>, a: Seq<MatchView>, b: Seq<MatchView>)
    requires
        ranking_of(s, a),
        ranking_of(s, b),
    ensures
        a == b,
{
    lemma_same_ranking(a, b);
}

/// In a ranking, no tour stands behind one that scores lower, nor behind one that scores as much and
/// costs more; a ranking has each tour as often as it came, and tours of equal score and price in
/// the order in which they came.
pub proof fn law_ranking(s: Seq<MatchView>, r: Seq<MatchView>, i: int, j: int)
    requires
        ranking_of(s, r),
        0 <= i < j < r.len(),
    ensures
        r.len() == s.len(),
        r.to_multiset() == s.to_multiset(),
        r[i].score >= r[j].score,
        r[i].score == r[j].score ==> r[i].price_usd <= r[j].price_usd,
        r.filter(
            |m: MatchView| m.score == r[i].score && m.price_usd == r[i].price_usd,
        ) == s.filter(|m: MatchView| m.score == r[i].score && m.price_usd == r[i].price_usd),
{
    assert(!ranks_before(r[j], r[i]));
    vstd::seq_lib::to_multiset_len(r);
    vstd::seq_lib::to_multiset_len(s);
    let k = of_rank(r[i].score, r[i].price_usd);
    assert(r.filter(k) == s.filter(k));
    assert(k =~= (|m: MatchView| m.score == r[i].score && m.price_usd == r[i].price_usd));
}

/// Contracts speak of all that is told of a tour that is offered.
pub proof fn law_offers_in_contracts(tour: TourMatch)
    ensures
        tour@.title == tour.title@,
        tour@.url == tour.url@,
        tour@.price_usd == tour.price_usd,
        tour@.accommodation_level == tour.accommodation_level@,
        tour@.has_central_serengeti == tour.has_central_serengeti,
        tour@.route_assessment == tour.route_assessment@,
        tour@.green_keywords == texts(tour.green_keywords@),
        tour@.score == tour.score,
{
}

} // verus!
