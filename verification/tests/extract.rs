use version_watch::error::Error;
use version_watch::extract::{extract, text_of_selection};

const PAGE: &str = "<html><head><title>Releases</title></head><body>\
    <div id=\"list\"><h2 class=\"tag\"><a href=\"/t/2\">  Foo v3.2.1.tar.gz \n</a></h2>\
    <h2 class=\"tag\"><a href=\"/t/1\">Foo v3.2.0.tar.gz</a></h2></div>\
    <p class=\"empty\"></p><p class=\"nested\"><b><i>9.8</i></b> tail</p>\
    <p class=\"blank\">   </p></body></html>";

#[test]
fn the_first_matching_element_gives_its_trimmed_text() {
    assert_eq!(extract(PAGE, "h2.tag > a"), Ok("Foo v3.2.1.tar.gz".to_string()));
    assert_eq!(extract(PAGE, "h2:nth-child(2) > a"), Ok("Foo v3.2.0.tar.gz".to_string()));
    assert_eq!(extract(PAGE, "title"), Ok("Releases".to_string()));
}

#[test]
fn the_first_text_node_may_lie_deeper() {
    assert_eq!(extract(PAGE, "p.nested"), Ok("9.8".to_string()));
}

#[test]
fn a_query_that_matches_nothing_is_no_match() {
    assert_eq!(extract(PAGE, "table td"), Err(Error::NoMatch));
    assert_eq!(extract("", "h2"), Err(Error::NoMatch));
}

#[test]
fn an_element_without_text_is_no_match() {
    assert_eq!(extract(PAGE, "p.empty"), Err(Error::NoMatch));
}

#[test]
fn text_of_white_space_is_trimmed_to_nothing() {
    assert_eq!(extract(PAGE, "p.blank"), Ok(String::new()));
}

#[test]
fn a_query_that_is_no_selector_is_invalid() {
    assert_eq!(extract(PAGE, "h2 >> a"), Err(Error::InvalidQuery));
    assert_eq!(extract(PAGE, ""), Err(Error::InvalidQuery));
    assert_eq!(extract(PAGE, "div["), Err(Error::InvalidQuery));
    assert_eq!(extract("", "div["), Err(Error::InvalidQuery));
}

#[test]
fn a_selection_amounts_to_its_text_or_its_failure() {
    assert_eq!(text_of_selection(Err(())), Err(Error::InvalidQuery));
    assert_eq!(text_of_selection(Ok(None)), Err(Error::NoMatch));
    assert_eq!(text_of_selection(Ok(Some(" 1.0\n".to_string()))), Ok("1.0".to_string()));
    assert_eq!(text_of_selection(Ok(Some(String::new()))), Ok(String::new()));
}
