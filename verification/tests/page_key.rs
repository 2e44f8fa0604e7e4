use glazewm::page_key::PageKey;

fn key(group: &str, page: usize) -> PageKey {
    PageKey { group: group.to_string(), page }
}

#[test]
fn formats_first_page_as_group_name() {
    assert_eq!(PageKey::first("1").to_string(), "1");
    assert_eq!(key("1", 3).to_string(), "1/3");
}

#[test]
fn parses_labels() {
    let is_group = |name: &str| name == "1" || name == "a/b";

    assert_eq!(PageKey::parse("1", is_group), Some(PageKey::first("1")));
    assert_eq!(PageKey::parse("1/2", is_group), Some(key("1", 2)));
    // Group names containing '/' take precedence over page parsing.
    assert_eq!(PageKey::parse("a/b", is_group), Some(PageKey::first("a/b")));
    assert_eq!(PageKey::parse("a/b/2", is_group), Some(key("a/b", 2)));
    assert_eq!(PageKey::parse("2", is_group), None);
    assert_eq!(PageKey::parse("1/0", is_group), None);
    assert_eq!(PageKey::parse("1/x", is_group), None);
}

#[test]
fn parses_numbers_with_sign_and_leading_zeros() {
    let is_group = |name: &str| name == "1";

    assert_eq!(PageKey::parse("1/+2", is_group), Some(key("1", 2)));
    assert_eq!(PageKey::parse("1/007", is_group), Some(key("1", 7)));
    assert_eq!(PageKey::parse("1/", is_group), None);
    assert_eq!(PageKey::parse("1/+", is_group), None);
    assert_eq!(PageKey::parse("1/-2", is_group), None);
    assert_eq!(PageKey::parse("1/99999999999999999999999", is_group), None);
    assert_eq!(
        PageKey::parse("1/18446744073709551615", is_group),
        Some(key("1", 18446744073709551615))
    );
}

#[test]
fn label_of_every_page_reads_back() {
    let is_group = |name: &str| name == "work";

    for page in [1, 2, 9, 10, 11, 123, 100000] {
        let page_key = key("work", page);
        assert_eq!(PageKey::parse(&page_key.to_string(), is_group), Some(page_key));
    }
}

#[test]
fn label_that_is_a_group_reads_as_the_group() {
    let is_group = |name: &str| name == "1" || name == "1/2";

    assert_eq!(PageKey::parse("1/2", is_group), Some(PageKey::first("1/2")));
}
