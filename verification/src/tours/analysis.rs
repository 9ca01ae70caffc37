//! Judging a tour by the text of its page.

use super::page::{html_texts, normalized, normalized_text, read_texts};
use crate::text::{
    chars_of, decimal, drop_char, has_part, holds, law_without, lower, number, opt_text,
    parse_number, text_of, texts, to_decimal, to_lower, without,
};
use vstd::prelude::*;

verus! {

/// What comes of judging a tour.
#[derive(Debug, PartialEq, Eq)]
pub enum TourDecision {
    /// The tour is offered.
    Keep(AnalyzedTour),
    /// The tour is left out, for this reason.
    Drop(String),
}

/// What the page of a tour tells.
#[derive(Debug, PartialEq, Eq)]
pub struct AnalyzedTour {
    /// The price.
    pub price_usd: u32,
    /// The level of the accommodation.
    pub accommodation_level: String,
    /// Whether the tour visits the central Serengeti.
    pub has_central_serengeti: bool,
    /// What to think of the route.
    pub route_assessment: String,
    /// The keywords found that speak for the tour.
    pub green_keywords: Vec<String>,
    /// How well the tour fits.
    pub score: u32,
}

/// What the page of a tour tells, in a contract.
pub struct AnalyzedView {
    pub price_usd: u32,
    pub accommodation_level: Seq<char>,
    pub has_central_serengeti: bool,
    pub route_assessment: Seq<char>,
    pub green_keywords: Seq<Seq<char>>,
    pub score: u32,
}

/// What comes of judging a tour, in a contract.
pub enum DecisionView {
    Keep(AnalyzedView),
    Drop(Seq<char>),
}

impl View for AnalyzedTour {
    type V = AnalyzedView;

    open spec fn view(&self) -> AnalyzedView {
        AnalyzedView {
            price_usd: self.price_usd,
            accommodation_level: self.accommodation_level@,
            has_central_serengeti: self.has_central_serengeti,
            route_assessment: self.route_assessment@,
            green_keywords: texts(self.green_keywords@),
            score: self.score,
        }
    }
}

impl View for TourDecision {
    type V = DecisionView;

    open spec fn view(&self) -> DecisionView {
        match *self {
            TourDecision::Keep(tour) => DecisionView::Keep(tour@),
            TourDecision::Drop(reason) => DecisionView::Drop(reason@),
        }
    }
}

/// The phrase, in small letters, stands in the text.
pub open spec fn phrase(text: Seq<char>, phrase: Seq<char>) -> bool {
    holds(text, lower(phrase))
}

/// The level of the accommodation that a text in small letters tells.
pub open spec fn level_in(text: Seq<char>) -> Option<Seq<char>> {
    if phrase(text, "mid-range"@) && phrase(text, "luxury"@) {
        Some("Mid-range/Luxury"@)
    } else if phrase(text, "mid-range"@) {
        Some("Mid-range"@)
    } else if phrase(text, "luxury"@) {
        Some("Luxury"@)
    } else {
        None
    }
}

/// A text in small letters tells of camping and of no better accommodation.
pub open spec fn only_camping(text: Seq<char>) -> bool {
    phrase(text, "camping"@) && !phrase(text, "mid-range"@) && !phrase(text, "luxury"@)
}

/// A text in small letters names a lodging far from the north.
pub open spec fn red_lodging(text: Seq<char>) -> bool {
    phrase(text, "ikoma"@) || phrase(text, "grumeti"@) || phrase(text, "western"@)
}

/// The keywords that speak for a tour.
pub open spec fn green_words() -> Seq<Seq<char>> {
    seq!["kogatende"@, "mara river"@, "mobile camp"@, "migration camp"@]
}

/// The keywords that speak for a tour and stand in a text in small letters.
pub open spec fn green_in(text: Seq<char>) -> Seq<Seq<char>> {
    green_words().filter(|word: Seq<char>| phrase(text, word))
}

/// A text in small letters tells that activities are shared with other guests.
pub open spec fn shared_activities(text: Seq<char>) -> bool {
    phrase(text, "shared with others"@) || (phrase(
        text,
        "wildlife viewing activities are run by the lodges"@,
    ) && phrase(text, "shared"@))
}

/// A text in small letters tells that the transfer from and to the airport is part of the tour.
pub open spec fn transfer_included(text: Seq<char>) -> bool {
    phrase(text, "transfer from and back to the airport is included"@)
}

/// Whether a phrase, in small letters, stands in a text.
pub fn contains_phrase(lower_text: &str, phrase: &str) -> (r: bool)
    ensures
        r == self::phrase(lower_text@, phrase@),
{
    let small = to_lower(phrase);
    has_part(lower_text, small.as_str())
}

/// The level of the accommodation that a text in small letters tells.
pub fn extract_accommodation_level(lower_text: &str) -> (r: Option<String>)
    ensures
        opt_text(r) == level_in(lower_text@),
{
    let mid_range = contains_phrase(lower_text, "mid-range");
    let luxury = contains_phrase(lower_text, "luxury");
    if mid_range && luxury {
        Some("Mid-range/Luxury".to_owned())
    } else if mid_range {
        Some("Mid-range".to_owned())
    } else if luxury {
        Some("Luxury".to_owned())
    } else {
        None
    }
}

/// Whether a text in small letters tells of camping and of no better accommodation.
pub fn camping_only(lower_text: &str) -> (r: bool)
    ensures
        r == only_camping(lower_text@),
{
    contains_phrase(lower_text, "camping") && !contains_phrase(lower_text, "mid-range")
        && !contains_phrase(lower_text, "luxury")
}

/// Whether a text in small letters names a lodging far from the north.
pub fn red_lodging_keyword_found(lower_text: &str) -> (r: bool)
    ensures
        r == red_lodging(lower_text@),
{
    contains_phrase(lower_text, "ikoma") || contains_phrase(lower_text, "grumeti")
        || contains_phrase(lower_text, "western")
}

/// The keywords that speak for a tour and stand in a text in small letters.
pub fn extract_green_keywords(lower_text: &str) -> (r: Vec<String>)
    ensures
        texts(r@) == green_in(lower_text@),
        r@.len() <= 4,
{
    let words: [&str; 4] = ["kogatende", "mara river", "mobile camp", "migration camp"];
    let ghost all = green_words();
    let ghost wanted = |word: Seq<char>| phrase(lower_text@, word);
    let mut found: Vec<String> = Vec::new();
    assert(texts(found@) =~= all.take(0).filter(wanted)) by {
        reveal(Seq::filter);
    }
    for i in 0..4
        invariant
            all == green_words(),
            wanted == (|word: Seq<char>| phrase(lower_text@, word)),
            words@.len() == 4,
            forall|j: int| 0 <= j < 4 ==> (#[trigger] words@[j])@ == all[j],
            texts(found@) == all.take(i as int).filter(wanted),
            found@.len() <= i,
    {
        proof {
            reveal(Seq::filter);
            assert(all.take(i + 1).drop_last() =~= all.take(i as int));
            assert(words@[i as int]@ == all[i as int]);
        }
        if contains_phrase(lower_text, words[i]) {
            let ghost before = texts(found@);
            found.push(words[i].to_owned());
            assert(texts(found@) =~= before.push(all[i as int]));
        }
    }
    assert(all.take(4) =~= all);
    found
}

/// Whether a text in small letters tells that activities are shared with other guests.
pub fn contains_excluded_shared_activity_terms(lower_text: &str) -> (r: bool)
    ensures
        r == shared_activities(lower_text@),
{
    contains_phrase(lower_text, "shared with others") || (contains_phrase(
        lower_text,
        "wildlife viewing activities are run by the lodges",
    ) && contains_phrase(lower_text, "shared"))
}

/// Whether a text in small letters tells that the transfer from and to the airport is part of the
/// tour.
pub fn airport_transfer_included(lower_text: &str) -> (r: bool)
    ensures
        r == transfer_included(lower_text@),
{
    contains_phrase(lower_text, "transfer from and back to the airport is included")
}

/// What the first groups of the matches hold.
pub type Captures = Seq<Option<Seq<char>>>;

/// What the first groups of the matches hold.
pub open spec fn captures_view(captures: Seq<Option<String>>) -> Captures {
    Seq::new(captures.len(), |i: int| opt_text(captures[i]))
}

/// What the first group holds in each match that `regex` finds; none where it does not accept the
/// expression.
pub uninterp spec fn regex_captures(pattern: Seq<char>, text: Seq<char>) -> Option<Captures>;

/// Where the matches that `regex` finds begin, in characters; none where it does not accept the
/// expression.
pub uninterp spec fn regex_starts(pattern: Seq<char>, text: Seq<char>) -> Option<Seq<usize>>;

/// Finds all matches with `regex::Regex::captures_iter`, after `regex::Regex::new`, and hands out
/// the first group of each. The claim: the outcome depends on the expression and the text alone, as
/// the name `regex_captures` says.
#[verifier::external_body]
fn match_captures(pattern: &str, text: &str) -> (r: Option<Vec<Option<String>>>)
    ensures
        r is Some <==> regex_captures(pattern@, text@) is Some,
        r matches Some(found) ==> regex_captures(pattern@, text@) == Some(captures_view(found@)),
{
    let regex = regex::Regex::new(pattern).ok()?;
    let groups = regex.captures_iter(text).map(|found| found.get(1).map(|group| group.as_str().to_string()));
    Some(groups.collect())
}

/// Finds all matches with `regex::Regex::find_iter`, after `regex::Regex::new`, and hands out where
/// each begins, in characters. The claim: the outcome depends on the expression and the text alone,
/// as the name `regex_starts` says; and since the matches do not overlap and come in the order of
/// the text, their beginnings lie in the text and never go back.
#[verifier::external_body]
fn match_starts(pattern: &str, text: &str) -> (r: Option<Vec<usize>>)
    ensures
        r is Some <==> regex_starts(pattern@, text@) is Some,
        r matches Some(found) ==> regex_starts(pattern@, text@) == Some(found@),
        r matches Some(found) ==> starts_fit(found@, text@.len()),
{
    let regex = regex::Regex::new(pattern).ok()?;
    Some(regex.find_iter(text).map(|found| text[..found.start()].chars().count()).collect())
}

/// The expression for a price: a mark of the currency, then the amount.
pub open spec fn price_pattern() -> Seq<char> {
    "(?i)(?:US\\$|USD|\\$)\\s*([0-9][0-9,]*)"@
}

/// The expression for the beginning of a day's programme.
pub open spec fn day_pattern() -> Seq<char> {
    "(?i)(?:^|\\b)(day\\s+\\d+[^\\n]*)"@
}

/// The amount in a match, its commas left out.
pub open spec fn amount(capture: Option<Seq<char>>) -> Option<u32> {
    match capture {
        Some(text) => number(without(text, ',')),
        None => None,
    }
}

/// The amount in the first match that holds one.
pub open spec fn first_amount(captures: Captures) -> Option<u32>
    decreases captures.len(),
{
    if captures.len() == 0 {
        None
    } else {
        match amount(captures[0]) {
            Some(n) => Some(n),
            None => first_amount(captures.skip(1)),
        }
    }
}

/// The price in a text. An expression that is not accepted matches nothing.
pub open spec fn price_in(text: Seq<char>) -> Option<u32> {
    match regex_captures(price_pattern(), text) {
        Some(captures) => first_amount(captures),
        None => None,
    }
}

/// The amount in the first match that holds one.
pub fn find_amount(captures: &Vec<Option<String>>) -> (r: Option<u32>)
    ensures
        r == first_amount(captures_view(captures@)),
{
    let ghost all = captures_view(captures@);
    assert(all.skip(0) =~= all);
    for i in 0..captures.len()
        invariant
            all == captures_view(captures@),
            first_amount(all) == first_amount(all.skip(i as int)),
    {
        proof {
            assert(all.skip(i as int)[0] == opt_text(captures@[i as int]));
            assert(all.skip(i as int).skip(1) =~= all.skip(i + 1));
        }
        match &captures[i] {
            Some(text) => {
                let digits = drop_char(text.as_str(), ',');
                match parse_number(digits.as_str()) {
                    Some(n) => {
                        return Some(n);
                    },
                    None => {},
                }
            },
            None => {},
        }
    }
    None
}

/// The price in a text.
pub fn extract_price_usd(text: &str) -> (r: Option<u32>)
    ensures
        r == price_in(text@),
{
    match match_captures("(?i)(?:US\\$|USD|\\$)\\s*([0-9][0-9,]*)", text) {
        Some(captures) => find_amount(&captures),
        None => None,
    }
}

/// The places lie in a text of this length, and never go back.
pub open spec fn starts_fit(starts: Seq<usize>, length: nat) -> bool {
    &&& forall|i: int| 0 <= i < starts.len() ==> #[trigger] starts[i] <= length
    &&& forall|i: int, j: int|
        0 <= i < j < starts.len() ==> #[trigger] starts[i] <= #[trigger] starts[j]
}

/// The programme of a day: from where it begins to where the next one does, or to the end.
pub open spec fn day_text(text: Seq<char>, starts: Seq<usize>, day: int) -> Seq<char> {
    text.subrange(
        starts[day] as int,
        if day + 1 < starts.len() {
            starts[day + 1] as int
        } else {
            text.len() as int
        },
    )
}

/// A text in small letters tells of the north and of a lodging far from it.
pub open spec fn far_lodging(text: Seq<char>) -> bool {
    phrase(text, "northern serengeti np"@) && red_lodging(text)
}

/// Some day tells of the north and of a lodging far from it, the days beginning at these places;
/// where there is none, the text as a whole does.
pub open spec fn red_day(text: Seq<char>, starts: Seq<usize>) -> bool {
    if starts.len() == 0 {
        far_lodging(lower(text))
    } else {
        exists|day: int|
            0 <= day < starts.len() && far_lodging(lower(#[trigger] day_text(text, starts, day)))
    }
}

/// Some day in a text tells of the north and of a lodging far from it. An expression that is not
/// accepted matches nothing.
pub open spec fn red_day_in(text: Seq<char>) -> bool {
    match regex_starts(day_pattern(), text) {
        Some(starts) => red_day(text, starts),
        None => red_day(text, Seq::empty()),
    }
}

/// Whether some day tells of the north and of a lodging far from it, the days beginning at these
/// places.
pub fn find_red_day(text: &str, starts: &Vec<usize>) -> (r: bool)
    requires
        starts_fit(starts@, text@.len()),
    ensures
        r == red_day(text@, starts@),
{
    if starts.len() == 0 {
        let small = to_lower(text);
        return contains_phrase(small.as_str(), "northern serengeti np")
            && red_lodging_keyword_found(small.as_str());
    }
    let all = chars_of(text);
    for i in 0..starts.len()
        invariant
            all@ == text@,
            starts@.len() > 0,
            starts_fit(starts@, text@.len()),
            forall|day: int|
                0 <= day < i ==> !far_lodging(lower(#[trigger] day_text(text@, starts@, day))),
    {
        let end: usize = if i + 1 < starts.len() {
            starts[i + 1]
        } else {
            all.len()
        };
        let day = text_of(&all, starts[i], end);
        assert(day@ == day_text(text@, starts@, i as int));
        let small = to_lower(day.as_str());
        if contains_phrase(small.as_str(), "northern serengeti np") && red_lodging_keyword_found(
            small.as_str(),
        ) {
            return true;
        }
    }
    false
}

/// Whether some day in a text tells of the north and of a lodging far from it.
pub fn northern_day_has_red_lodging(text: &str) -> (r: bool)
    ensures
        r == red_day_in(text@),
{
    match match_starts("(?i)(?:^|\\b)(day\\s+\\d+[^\\n]*)", text) {
        Some(starts) => find_red_day(text, &starts),
        None => {
            let none: Vec<usize> = Vec::new();
            assert(none@ =~= Seq::<usize>::empty());
            find_red_day(text, &none)
        },
    }
}

/// How well a tour fits: a base, more for the central Serengeti and for each keyword that speaks
/// for it, and more the cheaper it is.
pub open spec fn score_of(central: bool, keywords: nat, price: u32) -> int {
    100 + (if central {
        30int
    } else {
        0int
    }) + keywords * 20 + (if price <= 3000 {
        (3000 - price) / 100
    } else {
        0int
    })
}

/// What comes of judging a tour by the text of its page, the price in it, and whether some day
/// tells of the north and of a lodging far from it.
pub open spec fn judged(text: Seq<char>, price: Option<u32>, red_day: bool) -> DecisionView {
    let small = lower(text);
    let central = phrase(small, "central serengeti np"@);
    let keywords = green_in(small);
    if price is None {
        DecisionView::Drop("missing USD price"@)
    } else if price->0 > 3000 {
        DecisionView::Drop("price "@ + decimal(price->0 as nat) + " exceeds 3000 USD"@)
    } else if !phrase(small, "private tour"@) {
        DecisionView::Drop("not a private tour"@)
    } else if phrase(small, "shared tour"@) {
        DecisionView::Drop("contains shared tour"@)
    } else if level_in(small) is None {
        DecisionView::Drop("missing mid-range/luxury accommodation"@)
    } else if phrase(small, "budget"@) || only_camping(small) {
        DecisionView::Drop("contains budget or camping-only accommodation"@)
    } else if !phrase(small, "northern serengeti np"@) {
        DecisionView::Drop("route misses Northern Serengeti NP"@)
    } else if red_day {
        DecisionView::Drop("Northern Serengeti day uses Ikoma/Grumeti/Western lodging"@)
    } else if shared_activities(small) {
        DecisionView::Drop("private tour has shared activity terms"@)
    } else if !transfer_included(small) {
        DecisionView::Drop("airport transfer is not explicitly included"@)
    } else {
        DecisionView::Keep(
            AnalyzedView {
                price_usd: price->0,
                accommodation_level: level_in(small)->0,
                has_central_serengeti: central,
                route_assessment: if central {
                    "Central + Northern Serengeti route"@
                } else {
                    "Northern-only route: 魔鬼车程 risk"@
                },
                green_keywords: keywords,
                score: score_of(central, keywords.len(), price->0) as u32,
            },
        )
    }
}

/// What comes of judging a tour by its page.
pub open spec fn analyzed(html: Seq<char>) -> DecisionView {
    let text = normalized(html_texts(html));
    judged(text, price_in(text), red_day_in(text))
}

/// Judges a tour by the text of its page, the price in it, and whether some day tells of the north
/// and of a lodging far from it.
pub fn judge_tour(page_text: &str, price: Option<u32>, red_day: bool) -> (r: TourDecision)
    ensures
        r@ == judged(page_text@, price, red_day),
{
    let small = to_lower(page_text);
    let lower_text = small.as_str();
    let price_usd: u32 = match price {
        Some(n) => n,
        None => {
            return TourDecision::Drop("missing USD price".to_owned());
        },
    };
    if price_usd > 3000 {
        let mut reason = "price ".to_owned();
        reason.append(to_decimal(price_usd).as_str());
        reason.append(" exceeds 3000 USD");
        return TourDecision::Drop(reason);
    }
    if !contains_phrase(lower_text, "private tour") {
        return TourDecision::Drop("not a private tour".to_owned());
    }
    if contains_phrase(lower_text, "shared tour") {
        return TourDecision::Drop("contains shared tour".to_owned());
    }
    let accommodation_level = match extract_accommodation_level(lower_text) {
        Some(level) => level,
        None => {
            return TourDecision::Drop("missing mid-range/luxury accommodation".to_owned());
        },
    };
    if contains_phrase(lower_text, "budget") || camping_only(lower_text) {
        return TourDecision::Drop("contains budget or camping-only accommodation".to_owned());
    }
    if !contains_phrase(lower_text, "northern serengeti np") {
        return TourDecision::Drop("route misses Northern Serengeti NP".to_owned());
    }
    let has_central_serengeti = contains_phrase(lower_text, "central serengeti np");
    let route_assessment = if has_central_serengeti {
        "Central + Northern Serengeti route".to_owned()
    } else {
        "Northern-only route: 魔鬼车程 risk".to_owned()
    };
    if red_day {
        return TourDecision::Drop(
            "Northern Serengeti day uses Ikoma/Grumeti/Western lodging".to_owned(),
        );
    }
    if contains_excluded_shared_activity_terms(lower_text) {
        return TourDecision::Drop("private tour has shared activity terms".to_owned());
    }
    if !airport_transfer_included(lower_text) {
        return TourDecision::Drop("airport transfer is not explicitly included".to_owned());
    }
    let green_keywords = extract_green_keywords(lower_text);
    let mut score: u32 = 100;
    if has_central_serengeti {
        score += 30;
    }
    assert(green_in(lower_text@).len() == green_keywords@.len());
    score += (green_keywords.len() as u32) * 20;
    score += (3000 - price_usd) / 100;
    TourDecision::Keep(
        AnalyzedTour {
            price_usd,
            accommodation_level,
            has_central_serengeti,
            route_assessment,
            green_keywords,
            score,
        },
    )
}

/// Judges a tour by its page.
pub fn analyze_tour(html: &str) -> (r: TourDecision)
    ensures
        r@ == analyzed(html@),
{
    let pieces = read_texts(html);
    let page_text = normalized_text(&pieces);
    let price = extract_price_usd(page_text.as_str());
    let red_day = northern_day_has_red_lodging(page_text.as_str());
    judge_tour(page_text.as_str(), price, red_day)
}

proof fn lemma_few_green_words(text: Seq<char>)
    ensures
        green_in(text).len() <= 4,
{
    green_words().lemma_filter_len(|word: Seq<char>| phrase(text, word));
}

proof fn lemma_small_phrase(text: Seq<char>, part: Seq<char>)
    requires
        forall|i: int| 0 <= i < part.len() ==> !('A' <= #[trigger] part[i] <= 'Z'),
    ensures
        phrase(text, part) == holds(text, part),
{
    assert(lower(part) =~= part);
}

/// The phrases that the rules ask for are looked for as they stand.
proof fn lemma_phrases_as_they_stand(text: Seq<char>)
    ensures
        phrase(text, "private tour"@) == holds(text, "private tour"@),
        phrase(text, "shared tour"@) == holds(text, "shared tour"@),
        phrase(text, "mid-range"@) == holds(text, "mid-range"@),
        phrase(text, "luxury"@) == holds(text, "luxury"@),
        phrase(text, "budget"@) == holds(text, "budget"@),
        phrase(text, "camping"@) == holds(text, "camping"@),
        phrase(text, "northern serengeti np"@) == holds(text, "northern serengeti np"@),
        phrase(text, "central serengeti np"@) == holds(text, "central serengeti np"@),
        phrase(text, "ikoma"@) == holds(text, "ikoma"@),
        phrase(text, "grumeti"@) == holds(text, "grumeti"@),
        phrase(text, "western"@) == holds(text, "western"@),
        phrase(text, "kogatende"@) == holds(text, "kogatende"@),
        phrase(text, "mara river"@) == holds(text, "mara river"@),
        phrase(text, "mobile camp"@) == holds(text, "mobile camp"@),
        phrase(text, "migration camp"@) == holds(text, "migration camp"@),
        phrase(text, "shared with others"@) == holds(text, "shared with others"@),
        phrase(text, "shared"@) == holds(text, "shared"@),
        phrase(text, "wildlife viewing activities are run by the lodges"@) == holds(
            text,
            "wildlife viewing activities are run by the lodges"@,
        ),
        phrase(text, "transfer from and back to the airport is included"@) == holds(
            text,
            "transfer from and back to the airport is included"@,
        ),
{
    reveal_strlit("private tour");
    lemma_small_phrase(text, "private tour"@);
    reveal_strlit("shared tour");
    lemma_small_phrase(text, "shared tour"@);
    reveal_strlit("mid-range");
    lemma_small_phrase(text, "mid-range"@);
    reveal_strlit("luxury");
    lemma_small_phrase(text, "luxury"@);
    reveal_strlit("budget");
    lemma_small_phrase(text, "budget"@);
    reveal_strlit("camping");
    lemma_small_phrase(text, "camping"@);
    reveal_strlit("northern serengeti np");
    lemma_small_phrase(text, "northern serengeti np"@);
    reveal_strlit("central serengeti np");
    lemma_small_phrase(text, "central serengeti np"@);
    reveal_strlit("ikoma");
    lemma_small_phrase(text, "ikoma"@);
    reveal_strlit("grumeti");
    lemma_small_phrase(text, "grumeti"@);
    reveal_strlit("western");
    lemma_small_phrase(text, "western"@);
    reveal_strlit("kogatende");
    lemma_small_phrase(text, "kogatende"@);
    reveal_strlit("mara river");
    lemma_small_phrase(text, "mara river"@);
    reveal_strlit("mobile camp");
    lemma_small_phrase(text, "mobile camp"@);
    reveal_strlit("migration camp");
    lemma_small_phrase(text, "migration camp"@);
    reveal_strlit("shared with others");
    lemma_small_phrase(text, "shared with others"@);
    reveal_strlit("shared");
    lemma_small_phrase(text, "shared"@);
    reveal_strlit("wildlife viewing activities are run by the lodges");
    lemma_small_phrase(text, "wildlife viewing activities are run by the lodges"@);
    reveal_strlit("transfer from and back to the airport is included");
    lemma_small_phrase(text, "transfer from and back to the airport is included"@);
}

/// What a text in small letters tells, by the very words that stand in it.
pub proof fn law_what_a_text_tells(text: Seq<char>, words: Seq<char>)
    ensures
        phrase(text, words) <==> holds(text, lower(words)),
        level_in(text) is Some <==> holds(text, "mid-range"@) || holds(text, "luxury"@),
        level_in(text) == Some("Mid-range/Luxury"@) || level_in(text) == Some("Mid-range"@)
            || level_in(text) == Some("Luxury"@) || level_in(text) is None,
        holds(text, "mid-range"@) && holds(text, "luxury"@) ==> level_in(text) == Some(
            "Mid-range/Luxury"@,
        ),
        holds(text, "mid-range"@) && !holds(text, "luxury"@) ==> level_in(text) == Some(
            "Mid-range"@,
        ),
        !holds(text, "mid-range"@) && holds(text, "luxury"@) ==> level_in(text) == Some("Luxury"@),
        only_camping(text) <==> holds(text, "camping"@) && !holds(text, "mid-range"@) && !holds(
            text,
            "luxury"@,
        ),
        red_lodging(text) <==> holds(text, "ikoma"@) || holds(text, "grumeti"@) || holds(
            text,
            "western"@,
        ),
        far_lodging(text) <==> holds(text, "northern serengeti np"@) && (holds(text, "ikoma"@)
            || holds(text, "grumeti"@) || holds(text, "western"@)),
        shared_activities(text) <==> holds(text, "shared with others"@) || (holds(
            text,
            "wildlife viewing activities are run by the lodges"@,
        ) && holds(text, "shared"@)),
        transfer_included(text) <==> holds(
            text,
            "transfer from and back to the airport is included"@,
        ),
        green_in(text) == seq![
            "kogatende"@,
            "mara river"@,
            "mobile camp"@,
            "migration camp"@,
        ].filter(|word: Seq<char>| holds(text, word)),
{
    lemma_phrases_as_they_stand(text);
    let all = seq!["kogatende"@, "mara river"@, "mobile camp"@, "migration camp"@];
    lemma_same_filter(
        all,
        |word: Seq<char>| phrase(text, word),
        |word: Seq<char>| holds(text, word),
    );
}

proof fn lemma_same_filter(
    s: Seq<Seq<char>>,
    keep: spec_fn(Seq<char>) -> bool,
    other: spec_fn(Seq<char>) -> bool,
)
    requires
        forall|i: int| 0 <= i < s.len() ==> keep(#[trigger] s[i]) == other(s[i]),
    ensures
        s.filter(keep) == s.filter(other),
    decreases s.len(),
{
    reveal(Seq::filter);
    if s.len() > 0 {
        let head = s.drop_last();
        assert forall|i: int| 0 <= i < head.len() implies keep(#[trigger] head[i]) == other(
            head[i],
        ) by {
            assert(head[i] == s[i]);
        }
        lemma_same_filter(head, keep, other);
        assert(keep(s[s.len() - 1]) == other(s[s.len() - 1]));
    }
}

/// The rules for a tour, in the order in which they are looked at: whether the rule is kept, and the
/// reason for leaving out a tour that breaks it.
pub open spec fn rules(text: Seq<char>, price: Option<u32>, red_day: bool) -> Seq<
    (bool, Seq<char>),
> {
    let small = lower(text);
    seq![
        (price is Some, "missing USD price"@),
        (
            price matches Some(n) && n <= 3000,
            "price "@ + decimal(price->0 as nat) + " exceeds 3000 USD"@,
        ),
        (holds(small, "private tour"@), "not a private tour"@),
        (!holds(small, "shared tour"@), "contains shared tour"@),
        (
            holds(small, "mid-range"@) || holds(small, "luxury"@),
            "missing mid-range/luxury accommodation"@,
        ),
        (!holds(small, "budget"@), "contains budget or camping-only accommodation"@),
        (holds(small, "northern serengeti np"@), "route misses Northern Serengeti NP"@),
        (!red_day, "Northern Serengeti day uses Ikoma/Grumeti/Western lodging"@),
        (
            !holds(small, "shared with others"@) && !(holds(
                small,
                "wildlife viewing activities are run by the lodges"@,
            ) && holds(small, "shared"@)),
            "private tour has shared activity terms"@,
        ),
        (
            holds(small, "transfer from and back to the airport is included"@),
            "airport transfer is not explicitly included"@,
        ),
    ]
}

/// A tour is left out for the first rule that it breaks.
pub proof fn law_first_broken_rule(text: Seq<char>, price: Option<u32>, red_day: bool, broken: int)
    requires
        0 <= broken < rules(text, price, red_day).len(),
        !rules(text, price, red_day)[broken].0,
        forall|i: int| 0 <= i < broken ==> (#[trigger] rules(text, price, red_day)[i]).0,
    ensures
        judged(text, price, red_day) == DecisionView::Drop(rules(text, price, red_day)[broken].1),
{
    let all = rules(text, price, red_day);
    lemma_phrases_as_they_stand(lower(text));
    assert(broken > 0 ==> all[0].0);
    assert(broken > 1 ==> all[1].0);
    assert(broken > 2 ==> all[2].0);
    assert(broken > 3 ==> all[3].0);
    assert(broken > 4 ==> all[4].0);
    assert(broken > 5 ==> all[5].0);
    assert(broken > 6 ==> all[6].0);
    assert(broken > 7 ==> all[7].0);
    assert(broken > 8 ==> all[8].0);
}

/// A tour is offered exactly where it has a price of at most 3000 dollars, is private and nowhere
/// shared, has mid-range or luxury accommodation and no budget one, visits the north without a
/// lodging far from it on that day, and its page says that the transfer from and back to the airport
/// is included. It is offered with its price, the level of the accommodation, what to think of the
/// route, the keywords that stand on the page, and a score between 100 and 240: 100, 30 more for the
/// central Serengeti, 20 more for each keyword, and one more for each 100 dollars below 3000.
pub proof fn law_offered_tours(text: Seq<char>, price: Option<u32>, red_day: bool)
    ensures
        ({
            let small = lower(text);
            judged(text, price, red_day) is Keep <==> {
                &&& price matches Some(n) && n <= 3000
                &&& holds(small, "private tour"@)
                &&& !holds(small, "shared tour"@)
                &&& !holds(small, "shared with others"@)
                &&& !(holds(small, "wildlife viewing activities are run by the lodges"@) && holds(
                    small,
                    "shared"@,
                ))
                &&& holds(small, "mid-range"@) || holds(small, "luxury"@)
                &&& !holds(small, "budget"@)
                &&& holds(small, "northern serengeti np"@)
                &&& !red_day
                &&& holds(small, "transfer from and back to the airport is included"@)
            }
        }),
        judged(text, price, red_day) matches DecisionView::Keep(tour) ==> {
            let small = lower(text);
            let found = seq!["kogatende"@, "mara river"@, "mobile camp"@, "migration camp"@].filter(
                |word: Seq<char>| holds(small, word),
            );
            &&& price == Some(tour.price_usd)
            &&& tour.accommodation_level == if !holds(small, "luxury"@) {
                "Mid-range"@
            } else if !holds(small, "mid-range"@) {
                "Luxury"@
            } else {
                "Mid-range/Luxury"@
            }
            &&& tour.has_central_serengeti <==> holds(small, "central serengeti np"@)
            &&& tour.route_assessment == if tour.has_central_serengeti {
                "Central + Northern Serengeti route"@
            } else {
                "Northern-only route: 魔鬼车程 risk"@
            }
            &&& tour.green_keywords == found
            &&& 100 <= tour.score <= 240
            &&& tour.score == 100 + (if tour.has_central_serengeti {
                30int
            } else {
                0int
            }) + 20 * found.len() + (3000 - tour.price_usd) / 100
        },
{
    let small = lower(text);
    lemma_phrases_as_they_stand(small);
    law_what_a_text_tells(small, small);
    lemma_few_green_words(small);
}

/// The price is the amount in the first match that holds one, its commas left out.
pub proof fn law_first_amount(captures: Captures)
    ensures
        match first_amount(captures) {
            Some(n) => exists|i: int|
                0 <= i < captures.len() && (#[trigger] captures[i] matches Some(t) && number(
                    t.filter(|c: char| c != ','),
                ) == Some(n)) && forall|j: int|
                    0 <= j < i ==> (#[trigger] captures[j] matches Some(t) ==> number(
                        t.filter(|c: char| c != ','),
                    ) is None),
            None => forall|j: int|
                0 <= j < captures.len() ==> (#[trigger] captures[j] matches Some(t) ==> number(
                    t.filter(|c: char| c != ','),
                ) is None),
        },
    decreases captures.len(),
{
    if captures.len() > 0 {
        if let Some(t) = captures[0] {
            law_without(t, ',');
        }
        if amount(captures[0]) is None {
            let rest = captures.skip(1);
            law_first_amount(rest);
            match first_amount(rest) {
                Some(n) => {
                    let i = choose|i: int|
                        0 <= i < rest.len() && (#[trigger] rest[i] matches Some(t) && number(
                            t.filter(|c: char| c != ','),
                        ) == Some(n)) && forall|j: int|
                            0 <= j < i ==> (#[trigger] rest[j] matches Some(t) ==> number(
                                t.filter(|c: char| c != ','),
                            ) is None);
                    assert(captures[i + 1] == rest[i]);
                    assert forall|j: int| 0 <= j < i + 1 implies (
                    #[trigger] captures[j] matches Some(t) ==> number(
                        t.filter(|c: char| c != ','),
                    ) is None) by {
                        if j > 0 {
                            assert(rest[j - 1] == captures[j]);
                        }
                    }
                },
                None => {
                    assert forall|j: int| 0 <= j < captures.len() implies (
                    #[trigger] captures[j] matches Some(t) ==> number(
                        t.filter(|c: char| c != ','),
                    ) is None) by {
                        if j > 0 {
                            assert(rest[j - 1] == captures[j]);
                        }
                    }
                },
            }
        } else {
            assert(captures[0] is Some);
        }
    }
}

/// A day is red where its own words, from where it begins to where the next day does or to the end,
/// name the north and a lodging far from it; a text without days is looked at as a whole.
pub proof fn law_red_day(text: Seq<char>, starts: Seq<usize>)
    requires
        starts_fit(starts, text.len()),
    ensures
        starts.len() == 0 ==> (red_day(text, starts) <==> holds(
            lower(text),
            "northern serengeti np"@,
        ) && (holds(lower(text), "ikoma"@) || holds(lower(text), "grumeti"@) || holds(
            lower(text),
            "western"@,
        ))),
        starts.len() > 0 ==> (red_day(text, starts) <==> exists|day: int, end: int|
            #![trigger text.subrange(starts[day] as int, end)]
            0 <= day < starts.len() && (if day + 1 == starts.len() {
                end == text.len()
            } else {
                end == starts[day + 1]
            }) && ({
                let small = lower(text.subrange(starts[day] as int, end));
                holds(small, "northern serengeti np"@) && (holds(small, "ikoma"@) || holds(
                    small,
                    "grumeti"@,
                ) || holds(small, "western"@))
            })),
{
    lemma_phrases_as_they_stand(lower(text));
    if starts.len() > 0 {
        if red_day(text, starts) {
            let day = choose|day: int|
                0 <= day < starts.len() && far_lodging(
                    lower(#[trigger] day_text(text, starts, day)),
                );
            let end = if day + 1 == starts.len() {
                text.len() as int
            } else {
                starts[day + 1] as int
            };
            let small = lower(text.subrange(starts[day] as int, end));
            lemma_phrases_as_they_stand(small);
        }
        assert forall|day: int, end: int|
            #![trigger text.subrange(starts[day] as int, end)]
            0 <= day < starts.len() && (if day + 1 == starts.len() {
                end == text.len()
            } else {
                end == starts[day + 1]
            }) && ({
                let small = lower(text.subrange(starts[day] as int, end));
                holds(small, "northern serengeti np"@) && (holds(small, "ikoma"@) || holds(
                    small,
                    "grumeti"@,
                ) || holds(small, "western"@))
            }) implies red_day(text, starts) by {
            lemma_phrases_as_they_stand(lower(text.subrange(starts[day] as int, end)));
            assert(far_lodging(lower(day_text(text, starts, day))));
        }
    }
}

/// A page is judged by its text, by the first amount behind a mark of the currency in it, and by the
/// days that begin in it, each found by its expression.
pub proof fn law_analyzed(html: Seq<char>, captures: Captures, starts: Seq<usize>)
    requires
        regex_captures(
            "(?i)(?:US\\$|USD|\\$)\\s*([0-9][0-9,]*)"@,
            normalized(html_texts(html)),
        ) == Some(captures),
        regex_starts("(?i)(?:^|\\b)(day\\s+\\d+[^\\n]*)"@, normalized(html_texts(html))) == Some(
            starts,
        ),
    ensures
        analyzed(html) == judged(
            normalized(html_texts(html)),
            first_amount(captures),
            red_day(normalized(html_texts(html)), starts),
        ),
        price_in(normalized(html_texts(html))) == first_amount(captures),
        red_day_in(normalized(html_texts(html))) == red_day(normalized(html_texts(html)), starts),
{
}

/// Of two tours alike but for the price, the cheaper one does not score lower; and each keyword that
/// speaks for a tour, and the central Serengeti, makes it score higher.
pub proof fn law_score_follows_merit(central: bool, keywords: nat, cheap: u32, dear: u32)
    requires
        cheap <= dear,
    ensures
        score_of(central, keywords, cheap) >= score_of(central, keywords, dear),
        score_of(central, keywords + 1, cheap) == score_of(central, keywords, cheap) + 20,
        score_of(true, keywords, cheap) == score_of(false, keywords, cheap) + 30,
{
}

/// Contracts speak of all that is told of a tour.
pub proof fn law_tours_in_contracts(tour: AnalyzedTour, reason: String)
    ensures
        tour@.price_usd == tour.price_usd,
        tour@.accommodation_level == tour.accommodation_level@,
        tour@.has_central_serengeti == tour.has_central_serengeti,
        tour@.route_assessment == tour.route_assessment@,
        tour@.green_keywords == texts(tour.green_keywords@),
        tour@.score == tour.score,
        TourDecision::Keep(tour)@ == DecisionView::Keep(tour@),
        TourDecision::Drop(reason)@ == DecisionView::Drop(reason@),
{
}

/// Contracts speak of the matches of an expression one for one.
pub proof fn law_captures_in_contracts(captures: Seq<Option<String>>, i: int)
    ensures
        captures_view(captures).len() == captures.len(),
        0 <= i < captures.len() ==> captures_view(captures)[i] == opt_text(captures[i]),
{
}

} // verus!
