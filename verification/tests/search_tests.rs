use http_codec::search::{SearchParam, SearchParams};

fn entries(params: &SearchParams) -> Vec<(String, Vec<String>)> {
    let mut out = Vec::new();
    let mut walk = params.entries();
    while let Some(entry) = walk.next() {
        out.push(((*entry.key()).clone(), (*entry.value()).clone()));
    }
    out
}

fn strings(values: &[&str]) -> Vec<String> {
    values.iter().map(|v| v.to_string()).collect()
}

#[test]
fn repeated_keys_gather_under_the_first_occurrence() {
    let params = SearchParams::parse("?a=1&b=2&a=3".to_string()).unwrap();
    assert_eq!(
        entries(&params),
        vec![("a".to_string(), strings(&["1", "3"])), ("b".to_string(), strings(&["2"]))]
    );
}

#[test]
fn leading_question_mark_is_optional_and_only_one_is_set_aside() {
    let with = SearchParams::parse("?a=1".to_string()).unwrap();
    let without = SearchParams::parse("a=1".to_string()).unwrap();
    assert_eq!(entries(&with), entries(&without));
    let two = SearchParams::parse("??a=1".to_string()).unwrap();
    assert_eq!(entries(&two), vec![("?a".to_string(), strings(&["1"]))]);
}

#[test]
fn components_are_decoded_and_plus_is_a_space() {
    let params = SearchParams::parse("na%20me=x+y%21&k=%2B".to_string()).unwrap();
    assert_eq!(
        entries(&params),
        vec![("na me".to_string(), strings(&["x y!"])), ("k".to_string(), strings(&[" "]))]
    );
}

#[test]
fn component_that_does_not_decode_stays_as_it_is() {
    let params = SearchParams::parse("a=%FF+b".to_string()).unwrap();
    assert_eq!(entries(&params), vec![("a".to_string(), strings(&["%FF b"]))]);
}

#[test]
fn piece_without_exactly_one_equals_sign_fails_the_whole() {
    assert!(SearchParams::parse("a=1&b".to_string()).is_err());
    assert!(SearchParams::parse("a=1&b=2=3".to_string()).is_err());
    assert!(SearchParams::parse("".to_string()).is_err());
    assert!(SearchParams::parse("?".to_string()).is_err());
    assert!(SearchParams::parse("a=1&".to_string()).is_err());
}

#[test]
fn empty_key_and_value_are_read() {
    let params = SearchParams::parse("=".to_string()).unwrap();
    assert_eq!(entries(&params), vec![("".to_string(), strings(&[""]))]);
}

#[test]
fn format_encodes_and_joins() {
    let params = SearchParams::parse("?a=1&b=x+y&a=%C3%A9".to_string()).unwrap();
    assert_eq!(params.to_string(), "?a=1&a=%C3%A9&b=x%20y");
    assert_eq!(SearchParams::empty().to_string(), "");
}

#[test]
fn parse_then_format_then_parse_gives_the_same_parameters() {
    for raw in ["?a=1&a=2", "k=v", "?x+y=%26%3D&x%20y=2&z=", "a=%FF&b=+", "?=&="] {
        let first = SearchParams::parse(raw.to_string()).unwrap();
        let second = SearchParams::parse(first.to_string()).unwrap();
        assert_eq!(entries(&first), entries(&second));
        assert_eq!(first.to_string(), second.to_string());
    }
}

#[test]
fn get_and_has_go_by_the_exact_key() {
    let params = SearchParams::parse("a=1&a=2&B=3".to_string()).unwrap();
    assert_eq!(params.get("a"), Some(&strings(&["1", "2"])));
    assert_eq!(params.get("B"), Some(&strings(&["3"])));
    assert_eq!(params.get("b"), None);
    assert!(params.has("a"));
    assert!(!params.has("A"));
    assert_eq!(params.len(), 2);
}

#[test]
fn push_merges_the_first_value_or_adds_an_entry() {
    let mut params = SearchParams::empty();
    params.push(SearchParam::new("a".to_string(), strings(&["1", "2"])));
    assert_eq!(entries(&params), vec![("a".to_string(), strings(&["1", "2"]))]);
    params.push(SearchParam::new("a".to_string(), strings(&["3", "4"])));
    assert_eq!(entries(&params), vec![("a".to_string(), strings(&["1", "2", "3"]))]);
    params.push(SearchParam::new("b".to_string(), Vec::new()));
    params.push(SearchParam::new("a".to_string(), Vec::new()));
    assert_eq!(
        entries(&params),
        vec![("a".to_string(), strings(&["1", "2", "3"])), ("b".to_string(), Vec::new())]
    );
    assert_eq!(params.to_string(), "?a=1&a=2&a=3");
}

#[test]
fn remove_drops_the_entry_and_leaves_the_rest() {
    let mut params = SearchParams::parse("a=1&b=2&c=3".to_string()).unwrap();
    params.remove("b");
    assert_eq!(params.to_string(), "?a=1&c=3");
    params.remove("missing");
    assert_eq!(params.to_string(), "?a=1&c=3");
    params.remove("a");
    params.remove("c");
    assert_eq!(params.to_string(), "");
    assert_eq!(params.len(), 0);
}

#[test]
fn walks_give_keys_values_and_entries_in_order() {
    let params = SearchParams::parse("a=1&b=2&a=3".to_string()).unwrap();
    let mut keys = params.keys();
    assert_eq!(keys.next(), Some(&"a".to_string()));
    assert_eq!(keys.next(), Some(&"b".to_string()));
    assert_eq!(keys.next(), None);
    assert_eq!(keys.next(), None);
    let mut values = params.values();
    assert_eq!(values.next(), Some(&strings(&["1", "3"])));
    assert_eq!(values.next(), Some(&strings(&["2"])));
    assert_eq!(values.next(), None);
    let mut walk = params.entries();
    let first = walk.next().unwrap();
    assert_eq!(*first.key(), "a");
    assert_eq!(**first.value(), strings(&["1", "3"]));
    assert!(walk.next().is_some());
    assert!(walk.next().is_none());
}

#[test]
fn single_parameter_reads_and_writes() {
    let param = SearchParam::parse("na%20me=v+w".to_string()).unwrap();
    assert_eq!(param.name(), "na me");
    assert_eq!(param.value(), &strings(&["v w"]));
    assert_eq!(param.to_string(), "na%20me=v%20w");
    assert!(SearchParam::parse("novalue".to_string()).is_err());
    assert!(SearchParam::parse("a=b=c".to_string()).is_err());
    let many = SearchParam::new("k".to_string(), strings(&["1", "&", ""]));
    assert_eq!(many.to_string(), "k=1&k=%26&k=");
    assert_eq!(SearchParam::new("k".to_string(), Vec::new()).to_string(), "");
}

#[test]
fn copies_hold_the_same_entries() {
    let params = SearchParams::parse("a=1&b=2&a=3".to_string()).unwrap();
    let copy = params.clone();
    assert_eq!(entries(&copy), entries(&params));
    let param = SearchParam::new("k".to_string(), strings(&["1", "2"]));
    let twin = param.clone();
    assert_eq!(twin.name(), param.name());
    assert_eq!(twin.value(), param.value());
}

#[test]
fn keys_stay_distinct_under_push() {
    let mut params = SearchParams::parse("a=1&b=2".to_string()).unwrap();
    params.push(SearchParam::new("b".to_string(), strings(&["3"])));
    params.push(SearchParam::new("c".to_string(), strings(&["4"])));
    params.push(SearchParam::new("a".to_string(), strings(&["5"])));
    params.keys_are_distinct();
    let mut seen = Vec::new();
    let mut keys = params.keys();
    while let Some(key) = keys.next() {
        assert!(!seen.contains(key));
        seen.push(key.clone());
    }
    assert_eq!(seen, strings(&["a", "b", "c"]));
}
