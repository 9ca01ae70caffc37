use rsbin::tours::analysis::{
    airport_transfer_included, analyze_tour, camping_only, contains_excluded_shared_activity_terms,
    contains_phrase, extract_accommodation_level, extract_green_keywords, extract_price_usd,
    find_amount, find_red_day, judge_tour, northern_day_has_red_lodging, red_lodging_keyword_found,
    AnalyzedTour, TourDecision,
};
use rsbin::tours::crawl::{Crawl, CrawlAction};
use rsbin::tours::links::{
    collect_next_listing_links, collect_tour_links, extract_next_listing_links, extract_tour_links,
    leads_to_listing, leads_to_tour, link_says_next, parse_address, Resolved,
};
use rsbin::tours::page::{extract_title, normalized_text, read_page, Element, Page};
use rsbin::tours::ranking::{rank_matches, TourMatch};

fn base_html(extra: &str) -> String {
    format!(
        r#"
            <html><head><title>7-Day Great Migration Safari</title></head><body>
              <h1>7-Day Great Migration Safari</h1>
              <div>US$2,950</div>
              <div>Private tour</div>
              <div>Luxury accommodation</div>
              <section><h2>You Visit</h2>
                <p>Central Serengeti NP, Northern Serengeti NP</p>
              </section>
              <section><h2>Day 3: Northern Serengeti NP</h2>
                <p>Accommodation: Kogatende Mobile Camp near Mara River</p>
              </section>
              <section><h2>Tour Features</h2>
                <p>Transfer from and back to the airport is included.</p>
              </section>
              {extra}
            </body></html>
            "#
    )
}

#[test]
fn keeps_private_migration_tour_with_green_camp() {
    let decision = analyze_tour(&base_html(""));
    let TourDecision::Keep(tour) = decision else {
        panic!("expected keep");
    };

    assert_eq!(tour.price_usd, 2950);
    assert_eq!(tour.accommodation_level, "Luxury");
    assert!(tour.has_central_serengeti);
    assert_eq!(
        tour.green_keywords,
        vec!["kogatende", "mara river", "mobile camp"]
    );
}

#[test]
fn drops_shared_tours_even_when_private_text_exists() {
    let decision = analyze_tour(&base_html("<p>Shared tour option available</p>"));
    assert!(matches!(decision, TourDecision::Drop(reason) if reason == "contains shared tour"));
}

#[test]
fn drops_red_lodging_on_northern_serengeti_day() {
    let html = base_html(
        r#"<section><h2>Day 4: Northern Serengeti NP</h2>
               <p>Accommodation: Ikoma tented camp in the Western corridor</p></section>"#,
    );
    let decision = analyze_tour(&html);
    assert!(matches!(decision, TourDecision::Drop(reason) if reason.contains("Ikoma")));
}

#[test]
fn drops_missing_airport_transfer() {
    let html = base_html("").replace(
        "Transfer from and back to the airport is included.",
        "Airport transfers can be arranged at extra cost.",
    );
    let decision = analyze_tour(&html);
    assert!(matches!(decision, TourDecision::Drop(reason) if reason == "airport transfer is not explicitly included"));
}

#[test]
fn flags_northern_only_route_as_drive_risk() {
    let html = base_html("").replace("Central Serengeti NP, ", "");
    let decision = analyze_tour(&html);
    let TourDecision::Keep(tour) = decision else {
        panic!("expected keep");
    };

    assert!(!tour.has_central_serengeti);
    assert!(tour.route_assessment.contains("魔鬼车程"));
}

#[test]
fn extracts_tour_links_from_listing() {
    let base_url = parse_address("https://www.safaribookings.com/tours").unwrap();
    let document = read_page(r#"<a href="/tours/t123/example">Tour</a><a href="/tours">Index</a>"#);

    let links = extract_tour_links(&document, &base_url);
    assert_eq!(links.len(), 1);
    assert_eq!(links[0].as_str(), "https://www.safaribookings.com/tours/t123/example");
}

const FITTING: &str = "Private tour Luxury Northern Serengeti NP \
    transfer from and back to the airport is included";

fn reason(text: &str, price: Option<u32>, red_day: bool) -> String {
    match judge_tour(text, price, red_day) {
        TourDecision::Drop(reason) => reason,
        TourDecision::Keep(_) => panic!("expected drop"),
    }
}

#[test]
fn gives_each_reason_to_drop() {
    assert_eq!(reason(FITTING, None, false), "missing USD price");
    assert_eq!(reason(FITTING, Some(3001), false), "price 3001 exceeds 3000 USD");
    assert_eq!(
        reason(FITTING, Some(u32::MAX), false),
        "price 4294967295 exceeds 3000 USD"
    );
    assert_eq!(
        reason(&FITTING.replace("Private tour", ""), Some(1), false),
        "not a private tour"
    );
    assert_eq!(
        reason(&format!("{FITTING} SHARED TOUR"), Some(1), false),
        "contains shared tour"
    );
    assert_eq!(
        reason(&FITTING.replace("Luxury", ""), Some(1), false),
        "missing mid-range/luxury accommodation"
    );
    assert_eq!(
        reason(&format!("{FITTING} budget"), Some(1), false),
        "contains budget or camping-only accommodation"
    );
    assert_eq!(
        reason(&FITTING.replace("Northern", "Southern"), Some(1), false),
        "route misses Northern Serengeti NP"
    );
    assert_eq!(
        reason(FITTING, Some(1), true),
        "Northern Serengeti day uses Ikoma/Grumeti/Western lodging"
    );
    assert_eq!(
        reason(&format!("{FITTING} shared with others"), Some(1), false),
        "private tour has shared activity terms"
    );
    assert_eq!(
        reason(&FITTING.replace("included", "extra"), Some(1), false),
        "airport transfer is not explicitly included"
    );
}

#[test]
fn scores_a_kept_tour() {
    let text = format!("{FITTING} Central Serengeti NP migration camp");
    assert_eq!(
        judge_tour(&text, Some(2950), false),
        TourDecision::Keep(AnalyzedTour {
            price_usd: 2950,
            accommodation_level: "Luxury".to_string(),
            has_central_serengeti: true,
            route_assessment: "Central + Northern Serengeti route".to_string(),
            green_keywords: vec!["migration camp".to_string()],
            score: 150,
        })
    );
    let TourDecision::Keep(plain) = judge_tour(FITTING, Some(3000), false) else {
        panic!("expected keep");
    };
    assert_eq!(plain.score, 100);
    let TourDecision::Keep(free) = judge_tour(FITTING, Some(0), false) else {
        panic!("expected keep");
    };
    assert_eq!(free.score, 130);
}

#[test]
fn finds_the_first_readable_price() {
    assert_eq!(extract_price_usd("from US$ 1,234 per person"), Some(1234));
    assert_eq!(extract_price_usd("usd99 or $5"), Some(99));
    assert_eq!(extract_price_usd("$99999999999 then $7"), Some(7));
    assert_eq!(extract_price_usd("EUR 100"), None);
    assert_eq!(
        find_amount(&vec![None, Some("4,294,967,296".to_string()), Some("1,0".to_string())]),
        Some(10)
    );
    assert_eq!(find_amount(&vec![]), None);
}

#[test]
fn looks_for_red_lodging_day_by_day() {
    assert!(northern_day_has_red_lodging(
        "Day 1 Arusha Day 2 Northern Serengeti NP Grumeti camp"
    ));
    assert!(!northern_day_has_red_lodging(
        "Day 1 Northern Serengeti NP\nDay 2 Grumeti camp"
    ));
    assert!(northern_day_has_red_lodging(
        "Day 1 Northern Serengeti NP Day 2 Grumeti camp"
    ));
    assert!(northern_day_has_red_lodging(
        "Northern Serengeti NP, later the Western corridor"
    ));
    let text = "ä Northern Serengeti NP | Ikoma";
    assert!(find_red_day(text, &vec![]));
    assert!(find_red_day(text, &vec![0]));
    assert!(!find_red_day(text, &vec![0, 24]));
    assert!(!find_red_day(text, &vec![3]));
}

#[test]
fn reads_phrases() {
    assert!(contains_phrase("a private tour", "Private Tour"));
    assert!(!contains_phrase("A PRIVATE TOUR", "private tour"));
    assert_eq!(
        extract_accommodation_level("mid-range and luxury"),
        Some("Mid-range/Luxury".to_string())
    );
    assert_eq!(
        extract_accommodation_level("mid-range"),
        Some("Mid-range".to_string())
    );
    assert_eq!(extract_accommodation_level("budget"), None);
    assert!(camping_only("camping"));
    assert!(!camping_only("camping and luxury"));
    assert!(red_lodging_keyword_found("the grumeti river"));
    assert!(!red_lodging_keyword_found("the mara river"));
    assert_eq!(
        extract_green_keywords("migration camp at kogatende"),
        vec!["kogatende".to_string(), "migration camp".to_string()]
    );
    assert!(contains_excluded_shared_activity_terms(
        "wildlife viewing activities are run by the lodges and shared"
    ));
    assert!(!contains_excluded_shared_activity_terms("shared"));
    assert!(airport_transfer_included(
        "transfer from and back to the airport is included"
    ));
}

#[test]
fn normalizes_text() {
    assert_eq!(
        normalized_text(&vec![" a\n b".to_string(), "".to_string(), "c\u{a0}d ".to_string()]),
        "a b c d"
    );
    assert_eq!(normalized_text(&vec![]), "");
}

#[test]
fn takes_the_title_from_the_heading_first() {
    let page = read_page("<title>Page</title><h1> A <b>tour</b> </h1><h1>Other</h1>");
    assert_eq!(extract_title(&page), Some("A tour".to_string()));
    let page = read_page("<title>Page</title><h1> </h1><h1>Other</h1>");
    assert_eq!(extract_title(&page), Some("Page".to_string()));
    let page = read_page("<p>text</p>");
    assert_eq!(extract_title(&page), None);
}

fn resolved(text: &str, domain: Option<&str>, path: &str, base_domain: Option<&str>) -> Resolved {
    Resolved {
        text: text.to_string(),
        domain: domain.map(str::to_string),
        path: path.to_string(),
        base_domain: base_domain.map(str::to_string),
    }
}

#[test]
fn tells_tours_and_listings_by_their_addresses() {
    let here = Some("site");
    assert!(leads_to_tour(&resolved("x", here, "/tours/a", here)));
    assert!(leads_to_tour(&resolved("x", None, "/tours/a", None)));
    assert!(!leads_to_tour(&resolved("x", Some("other"), "/tours/a", here)));
    assert!(!leads_to_tour(&resolved("x", None, "/tours/a", here)));
    assert!(!leads_to_tour(&resolved("x", here, "/tours//", here)));
    assert!(!leads_to_tour(&resolved("x", here, "/tours", here)));
    assert!(!leads_to_tour(&resolved("x", here, "/tours/operators/a", here)));
    assert!(leads_to_listing(&resolved("x", here, "/tours", here)));
    assert!(!leads_to_listing(&resolved("x", here, "/tour", here)));
}

fn anchor(href: Option<&str>, rel: Option<&str>, text: &str) -> Element {
    Element {
        href: href.map(str::to_string),
        rel: rel.map(str::to_string),
        texts: vec![text.to_string()],
    }
}

#[test]
fn tells_links_to_the_next_page() {
    assert!(link_says_next(&anchor(None, Some("nofollow NEXT"), "2")));
    assert!(!link_says_next(&anchor(None, Some("nextpage"), "2")));
    assert!(link_says_next(&anchor(None, None, " Next ")));
    assert!(link_says_next(&anchor(None, None, "›")));
    assert!(link_says_next(&anchor(None, None, ">")));
    assert!(!link_says_next(&anchor(None, None, "next page")));
}

#[test]
fn collects_links_in_order_and_once() {
    let here = Some("site");
    let found = vec![
        Some(resolved("b", here, "/tours/b", here)),
        None,
        Some(resolved("a", here, "/tours/a", here)),
        Some(resolved("b", here, "/tours/b", here)),
        Some(resolved("c", here, "/about", here)),
    ];
    assert_eq!(collect_tour_links(&found), vec!["a".to_string(), "b".to_string()]);
    let page = Page {
        links: vec![
            anchor(Some("b"), None, "next"),
            anchor(None, None, "next"),
            anchor(Some("a"), None, "2"),
            anchor(Some("b"), None, "next"),
            anchor(Some("c"), None, "next"),
        ],
        headings: vec![],
        titles: vec![],
    };
    assert_eq!(
        collect_next_listing_links(&page, &found),
        vec!["b".to_string()]
    );
}

#[test]
fn follows_links_to_the_next_listing() {
    let base_url = parse_address("https://www.safaribookings.com/tours").unwrap();
    let document = read_page(
        r#"<a href="/tours/p3#top" rel="next">3</a><a href="tours/p2">Next</a>
           <a href="/about">next</a><a href="https://elsewhere.org/tours">next</a>
           <a href="/tours/p4">4</a>"#,
    );
    assert_eq!(
        extract_next_listing_links(&document, &base_url),
        vec![
            "https://www.safaribookings.com/tours/p2".to_string(),
            "https://www.safaribookings.com/tours/p3".to_string(),
        ]
    );
}

#[test]
fn reads_addresses() {
    assert_eq!(
        parse_address("HTTPS://Example.org"),
        Ok("https://example.org/".to_string())
    );
    assert!(parse_address("no address").is_err());
}

fn offer(title: &str, score: u32, price_usd: u32) -> TourMatch {
    TourMatch {
        title: title.to_string(),
        url: String::new(),
        price_usd,
        accommodation_level: String::new(),
        has_central_serengeti: false,
        route_assessment: String::new(),
        green_keywords: vec![],
        score,
    }
}

#[test]
fn ranks_by_score_then_price_then_arrival() {
    let ranked = rank_matches(vec![
        offer("a", 100, 5),
        offer("b", 120, 9),
        offer("c", 100, 4),
        offer("d", 120, 9),
        offer("e", 100, 5),
    ]);
    let titles: Vec<&str> = ranked.iter().map(|m| m.title.as_str()).collect();
    assert_eq!(titles, vec!["b", "d", "c", "a", "e"]);
}

fn expect_listing(action: CrawlAction, expected: &str) {
    assert!(matches!(action, CrawlAction::FetchListing(url) if url == expected));
}

fn expect_tour(action: CrawlAction, expected: &str) {
    assert!(matches!(action, CrawlAction::FetchTour(url) if url == expected));
}

#[test]
fn crawls_within_limits_and_fetches_once() {
    let mut crawl = Crawl::new("p1".to_string(), 2, 3);
    expect_listing(crawl.advance(), "p1");
    crawl.take_links(
        vec!["a".to_string(), "b".to_string(), "a".to_string()],
        vec!["p1".to_string(), "p2".to_string(), "p3".to_string()],
    );
    expect_tour(crawl.advance(), "a");
    crawl.take_decision("a", None, TourDecision::Drop("no".to_string()));
    expect_tour(crawl.advance(), "b");
    assert!(matches!(crawl.advance(), CrawlAction::Pause));
    expect_listing(crawl.advance(), "p2");
    crawl.take_links(
        vec!["b".to_string(), "c".to_string(), "d".to_string()],
        vec!["p4".to_string()],
    );
    expect_tour(crawl.advance(), "c");
    assert!(matches!(crawl.advance(), CrawlAction::Pause));
    assert!(matches!(crawl.advance(), CrawlAction::Finish));
    assert!(matches!(crawl.advance(), CrawlAction::Finish));
    assert!(crawl.finish().is_empty());
}

#[test]
fn crawls_nothing_where_nothing_may_be_fetched() {
    let mut crawl = Crawl::new("p1".to_string(), 0, 3);
    assert!(matches!(crawl.advance(), CrawlAction::Finish));
}

#[test]
fn crawls_from_listing_to_offers() {
    let start = parse_address("https://www.safaribookings.com/tours").unwrap();
    let mut crawl = Crawl::new(start.clone(), 5, 50);
    expect_listing(crawl.advance(), "https://www.safaribookings.com/tours");
    crawl.take_listing(
        &start,
        r#"<a href="/tours/t2">B</a><a href="/tours/t1">A</a><a href="/tours?page=2">next</a>"#,
    );
    expect_tour(crawl.advance(), "https://www.safaribookings.com/tours/t1");
    crawl.take_tour("https://www.safaribookings.com/tours/t1", &base_html(""));
    expect_tour(crawl.advance(), "https://www.safaribookings.com/tours/t2");
    crawl.take_tour("https://www.safaribookings.com/tours/t2", "<p>nothing</p>");
    assert!(matches!(crawl.advance(), CrawlAction::Pause));
    expect_listing(crawl.advance(), "https://www.safaribookings.com/tours?page=2");
    crawl.take_links(vec![], vec![]);
    assert!(matches!(crawl.advance(), CrawlAction::Pause));
    assert!(matches!(crawl.advance(), CrawlAction::Finish));
    let offers = crawl.finish();
    assert_eq!(offers.len(), 1);
    assert_eq!(offers[0].title, "7-Day Great Migration Safari");
    assert_eq!(offers[0].url, "https://www.safaribookings.com/tours/t1");
    assert_eq!(offers[0].score, 190);
}

#[test]
fn offers_a_tour_without_title_under_its_address() {
    let mut crawl = Crawl::new("p1".to_string(), 1, 1);
    expect_listing(crawl.advance(), "p1");
    crawl.take_links(vec!["address".to_string()], vec![]);
    expect_tour(crawl.advance(), "address");
    let decision = judge_tour(FITTING, Some(3000), false);
    crawl.take_decision("address", None, decision);
    let offers = crawl.finish();
    assert_eq!(offers[0].title, "address");
}
