use graph_extract::config::{config_from_args, split_string};
use graph_extract::chat::{chat_reply, chat_request, ExtractError};
use graph_extract::extract::{extract_from_html, extract_pairs, parse_tag_specs, TagValuePair};
use select::document::Document;
use graph_extract::ingest::{
    after_fetch, after_fetch_html, after_fetch_result, begin, default_specs, has_prefix, is_url, text_blob, Step,
};
use graph_extract::prompt::{build_prompt, entities_text, join_strings};
use graph_extract::tag_spec::{parse_tag_spec, TagSpec};

fn strings(v: &[&str]) -> Vec<String> {
    v.iter().map(|s| s.to_string()).collect()
}

fn as_tuples(pairs: &[TagValuePair]) -> Vec<(String, String)> {
    pairs.iter().map(|p| (p.tag.clone(), p.value.clone())).collect()
}

fn tuples(v: &[(&str, &str)]) -> Vec<(String, String)> {
    v.iter().map(|(a, b)| (a.to_string(), b.to_string())).collect()
}

const PAGE: &str = "<html><body><h1>Hi</h1><p>A</p><a href=\"/x\">L</a></body></html>";

#[test]
fn parse_bare_element() {
    assert!(matches!(parse_tag_spec("article"), TagSpec::Element(e) if e == "article"));
}

#[test]
fn parse_attribute_form() {
    assert!(matches!(parse_tag_spec("a.href"), TagSpec::Attribute(e, a) if e == "a" && a == "href"));
}

#[test]
fn parse_unmatchable_forms() {
    assert!(matches!(parse_tag_spec("a.b.c"), TagSpec::Unmatchable));
    assert!(matches!(parse_tag_spec(".href"), TagSpec::Unmatchable));
    assert!(matches!(parse_tag_spec("a."), TagSpec::Unmatchable));
    assert!(matches!(parse_tag_spec("."), TagSpec::Unmatchable));
}

#[test]
fn parse_keeps_order() {
    let parsed = parse_tag_specs(&strings(&["p", "img.src"]));
    assert_eq!(parsed.len(), 2);
    assert!(matches!(&parsed[0], TagSpec::Element(e) if e == "p"));
    assert!(matches!(&parsed[1], TagSpec::Attribute(e, a) if e == "img" && a == "src"));
}

#[test]
fn page_pairs_in_document_order() {
    let pairs = extract_from_html(PAGE, &default_specs());
    assert_eq!(
        as_tuples(&pairs),
        tuples(&[("h1", "Hi"), ("p", "A"), ("a", "L"), ("a.href", "/x")])
    );
    assert_eq!(text_blob(&pairs), "Hi A L /x");
}

#[test]
fn page_request_carries_blob() {
    let req = after_fetch_html(PAGE, &strings(&["Greeting"]));
    assert!(req.messages[1].content.ends_with("\n\nHi A L /x"));
    assert!(req.messages[1].content.contains("valid types are Greeting. The list"));
}

#[test]
fn no_matching_tags_gives_empty_blob() {
    let d = Document::from("<html><body><div>nothing here</div><span>x</span></body></html>");
    let pairs = extract_pairs(&d, &default_specs());
    assert!(pairs.is_empty());
    assert_eq!(text_blob(&pairs), "");
    let req = after_fetch(&d, &strings(&[]));
    assert!(req.messages[1].content.ends_with("phrase.\n\n"));
}

#[test]
fn one_element_many_specs_in_spec_order() {
    let html = "<a href=\"/h\" title=\"t\">link</a>";
    let pairs = extract_from_html(html, &strings(&["a.title", "a", "a.href", "a"]));
    assert_eq!(
        as_tuples(&pairs),
        tuples(&[("a.title", "t"), ("a", "link"), ("a.href", "/h"), ("a", "link")])
    );
}

#[test]
fn missing_attribute_emits_nothing() {
    let pairs = extract_from_html("<a>no link</a>", &strings(&["a.href"]));
    assert!(pairs.is_empty());
}

#[test]
fn empty_attribute_value_is_emitted() {
    let pairs = extract_from_html("<a href=\"\">x</a>", &strings(&["a.href"]));
    assert_eq!(as_tuples(&pairs), tuples(&[("a.href", "")]));
}

#[test]
fn text_is_recursive_and_untrimmed() {
    let pairs = extract_from_html("<p> a<b>b</b>c </p>", &strings(&["p"]));
    assert_eq!(as_tuples(&pairs), tuples(&[("p", " abc ")]));
}

#[test]
fn nested_elements_follow_document_order() {
    let pairs = extract_from_html("<ul><li>one</li><li>two</li></ul><h2>end</h2>", &default_specs());
    assert_eq!(
        as_tuples(&pairs),
        tuples(&[("ul", "onetwo"), ("li", "one"), ("li", "two"), ("h2", "end")])
    );
}

#[test]
fn void_element_has_empty_text() {
    let pairs = extract_from_html("<p>x<br>y</p>", &strings(&["br"]));
    assert_eq!(as_tuples(&pairs), tuples(&[("br", "")]));
}

#[test]
fn lo_spec_is_kept() {
    let specs = default_specs();
    assert_eq!(
        specs,
        strings(&["h1", "h2", "h3", "h4", "p", "article", "td", "ul", "li", "lo", "a", "a.href"])
    );
}

#[test]
fn url_prefixes() {
    assert!(is_url("http://example.test"));
    assert!(is_url("https://example.test/page"));
    assert!(!is_url("HTTP://example.test"));
    assert!(!is_url("ftp://example.test"));
    assert!(!is_url("http:/"));
    assert!(!is_url("Paris is in France."));
    assert!(has_prefix("abc", ""));
    assert!(!has_prefix("ab", "abc"));
}

#[test]
fn text_input_goes_straight_to_chat() {
    match begin("Paris is in France.", &strings(&["City", "Country"])) {
        Step::Chat(req) => {
            assert_eq!(req.model, "gpt-4-turbo");
            assert_eq!(req.messages.len(), 2);
            assert_eq!(req.messages[0].role, "system");
            assert_eq!(req.messages[0].content, "You are a helpful assistant.");
            assert_eq!(req.messages[1].role, "user");
            assert!(req.messages[1].content.contains("valid types are City, Country"));
            assert!(req.messages[1].content.ends_with("\n\nParis is in France."));
        },
        Step::Fetch(_) => panic!("text input must not be fetched"),
    }
}

#[test]
fn url_input_is_fetched() {
    match begin("https://example.test/page", &strings(&[])) {
        Step::Fetch(url) => assert_eq!(url, "https://example.test/page"),
        Step::Chat(_) => panic!("URL input must be fetched"),
    }
}

#[test]
fn empty_entities_sentinel() {
    assert_eq!(entities_text(&strings(&[])), "<no entities provided>");
    let p = build_prompt(&strings(&[]), "blob");
    assert!(p.contains("valid types are <no entities provided>. The list"));
    assert!(!p.contains("<no entities provided>,"));
}

#[test]
fn exact_prompt() {
    let p = build_prompt(&strings(&["City", "Country"]), "Paris is in France.");
    assert_eq!(
        p,
        "extract the following entities from this article and return a JSON with edges and nodes, both lists of objects. Each object in the nodes JSON list can have the keys (value, type) and valid types are City, Country. The list of edges each have keys (from, to, type) where from and to are node values and type is a verblike word or phrase.\n\nParis is in France."
    );
}

#[test]
fn join_with_single_space() {
    assert_eq!(join_strings(&strings(&["a", "", "b"]), " "), "a  b");
    assert_eq!(join_strings(&strings(&["solo"]), " "), "solo");
    assert_eq!(join_strings(&strings(&[]), " "), "");
}

#[test]
fn request_shape() {
    let r = chat_request("hello");
    assert_eq!(r.model, "gpt-4-turbo");
    assert_eq!(r.messages[1].content, "hello");
}

#[test]
fn remote_error_keeps_body() {
    let r = chat_reply(401, "bad key".to_string(), Ok(vec![]));
    match r {
        Err(e) => {
            assert!(matches!(e, ExtractError::Remote(_)));
            assert_eq!(e.message(), "bad key");
        },
        Ok(_) => panic!("expected an error"),
    }
}

#[test]
fn empty_choices_error() {
    let r = chat_reply(200, String::new(), Ok(vec![]));
    match r {
        Err(e) => {
            assert!(matches!(e, ExtractError::EmptyResponse));
            assert_eq!(e.message(), "No choices in response");
        },
        Ok(_) => panic!("expected an error"),
    }
}

#[test]
fn decode_error() {
    let r = chat_reply(200, String::new(), Err("missing field `choices`".to_string()));
    assert!(matches!(r, Err(ExtractError::Decode(m)) if m == "missing field `choices`"));
}

#[test]
fn first_choice_returned() {
    let r = chat_reply(200, String::new(), Ok(strings(&["{\"nodes\":[]}", "second"])));
    assert!(matches!(r, Ok(s) if s == "{\"nodes\":[]}"));
}

#[test]
fn usage_and_network_messages() {
    assert_eq!(ExtractError::Usage("u".to_string()).message(), "u");
    assert_eq!(ExtractError::Network("n".to_string()).message(), "n");
}

#[test]
fn arguments_give_config() {
    let args = strings(&["prog", "Paris is in France.", "City,Country"]);
    match config_from_args(&args, Some("k".to_string()), None) {
        Ok(c) => {
            assert_eq!(c.input, "Paris is in France.");
            assert_eq!(c.entities, strings(&["City", "Country"]));
            assert_eq!(c.api_key, "k");
            assert!(c.proxy_url.is_none());
        },
        Err(_) => panic!("expected a configuration"),
    }
}

#[test]
fn entities_keep_empty_pieces() {
    assert_eq!(split_string("a,,b,", ','), strings(&["a", "", "b", ""]));
    assert_eq!(split_string("", ','), strings(&[""]));
}

#[test]
fn missing_input_is_usage_error() {
    match config_from_args(&strings(&["prog"]), Some("k".to_string()), None) {
        Err(ExtractError::Usage(m)) => {
            assert_eq!(m, "Usage: cargo run <input> [entities_comma_separated]")
        },
        _ => panic!("expected a usage error"),
    }
    assert!(matches!(
        config_from_args(&strings(&["prog", "x"]), None, None),
        Err(ExtractError::Usage(_))
    ));
}

#[test]
fn no_entity_argument_gives_empty_list() {
    match config_from_args(&strings(&["prog", "x"]), Some("k".to_string()), Some("socks5h://127.0.0.1:9050".to_string())) {
        Ok(c) => {
            assert!(c.entities.is_empty());
            assert_eq!(c.proxy_url.as_deref(), Some("socks5h://127.0.0.1:9050"));
        },
        Err(_) => panic!("expected a configuration"),
    }
}

#[test]
fn failed_fetch_sends_no_request() {
    let r = after_fetch_result(Err("proxy unreachable".to_string()), &strings(&[]));
    assert!(matches!(r, Err(ExtractError::Network(m)) if m == "proxy unreachable"));
}

#[test]
fn fetched_page_gives_request() {
    match after_fetch_result(Ok(PAGE.to_string()), &strings(&["City"])) {
        Ok(req) => assert!(req.messages[1].content.ends_with("\n\nHi A L /x")),
        Err(_) => panic!("expected a request"),
    }
}
