use svl_core::client::{
    parse_authors, parse_texts, path_to_url, CatalogueError, FetchLimiter, FetchSchedule,
    FetchStep,
};

#[test]
fn paths_become_addresses() {
    assert_eq!(path_to_url(" cic.html "), "https://thelatinlibrary.com/cic.html");
    assert_eq!(path_to_url(""), "https://thelatinlibrary.com/");
}

#[test]
fn catalogue_lists_authors() {
    let html = r#"<html><body><form name="myform"><select name="dest">
        <option value="cic.html"> Cicero </option>
        <option>No address</option>
        <option value=" vergil.html">Vergil</option>
        </select></form></body></html>"#;
    let authors = parse_authors(html).unwrap();
    assert_eq!(authors.len(), 2);
    assert_eq!(authors[0].name, "Cicero");
    assert_eq!(authors[0].url, "https://thelatinlibrary.com/cic.html");
    assert_eq!(authors[1].name, "Vergil");
    assert_eq!(authors[1].url, "https://thelatinlibrary.com/vergil.html");
    assert!(authors[1].texts.is_empty());
}

#[test]
fn catalogue_without_marker_fails() {
    assert_eq!(parse_authors("<html><body><p>moved</p></body></html>"), Err(CatalogueError::MissingCatalogue));
    assert_eq!(parse_authors(r#"<form name="myform"></form>"#), Err(CatalogueError::MissingCatalogue));
    let empty = parse_authors(r#"<form name="myform"><select name="dest"></select></form>"#).unwrap();
    assert!(empty.is_empty());
}

#[test]
fn author_page_lists_works() {
    let html = r#"<div class="work"><table><tr>
        <td><a href="cicero/off1.shtml">De Officiis I</a></td>
        <td><a href="cicero/off2.shtml">De Officiis II</a></td>
        <td><a>no link</a></td>
        </tr></table></div>"#;
    let works = parse_texts(html);
    assert_eq!(works.len(), 2);
    assert_eq!(works[0].name, "De Officiis I");
    assert_eq!(works[1].url, "https://thelatinlibrary.com/cicero/off2.shtml");
    assert!(parse_texts("<p>nothing</p>").is_empty());
}

#[test]
fn five_fetches_under_a_cap_of_two() {
    let mut schedule = FetchSchedule::new(5, 2);
    let mut in_flight: Vec<usize> = Vec::new();
    let mut started: Vec<usize> = Vec::new();
    let mut peak = 0;
    loop {
        match schedule.next_step() {
            FetchStep::Start(i) => {
                in_flight.push(i);
                started.push(i);
                peak = peak.max(in_flight.len());
                assert!(schedule.in_flight() <= 2);
            }
            FetchStep::Wait => {
                // the oldest fetch completes first
                in_flight.remove(0);
                schedule.complete();
            }
            FetchStep::Finished => break,
        }
    }
    assert_eq!(started, vec![0, 1, 2, 3, 4]);
    assert_eq!(peak, 2);
    assert!(in_flight.is_empty());
}

#[test]
fn limiter_refuses_past_the_cap() {
    let mut limiter = FetchLimiter::new(1);
    assert!(limiter.try_acquire());
    assert!(!limiter.try_acquire());
    assert_eq!(limiter.in_flight(), 1);
    limiter.release();
    assert_eq!(limiter.in_flight(), 0);
    assert_eq!(limiter.cap(), 1);
    let mut none = FetchLimiter::new(0);
    assert!(!none.try_acquire());
}
