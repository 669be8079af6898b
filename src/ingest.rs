use vstd::prelude::*;
use select::document::Document;
use crate::chat::{chat_request, is_request_for, ChatRequest};
use crate::extract::{
    doc_nodes, extract_pairs, extracted, pairs_view, parse_document, parsed_nodes, NodeView, TagValuePair,
    MAX_HTML_CHARS,
};
use crate::chat::ExtractError;
use crate::prompt::{build_prompt, join_strings, join_with, prompt_spec, string_views};

verus! {

pub open spec fn starts_with(s: Seq<char>, p: Seq<char>) -> bool {
    p.len() <= s.len() && s.take(p.len() as int) == p
}

/// Inputs that are fetched rather than read as text.
pub open spec fn is_url_spec(s: Seq<char>) -> bool {
    starts_with(s, "http://"@) || starts_with(s, "https://"@)
}

/// Whether `s` begins with `p`, compared character by character.
pub fn has_prefix(s: &str, p: &str) -> (r: bool)
    ensures
        r == starts_with(s@, p@),
{
    let n = s.unicode_len();
    let m = p.unicode_len();
    if m > n {
        return false;
    }
    let mut i: usize = 0;
    while i < m
        invariant
            m <= n,
            n == s@.len(),
            m == p@.len(),
            i <= m,
            forall|k: int| 0 <= k < i ==> s@[k] == p@[k],
        decreases m - i,
    {
        if s.get_char(i) != p.get_char(i) {
            assert(s@.take(m as int)[i as int] != p@[i as int]);
            return false;
        }
        i = i + 1;
    }
    assert(s@.take(m as int) =~= p@);
    true
}

/// Whether the input is a URL: it begins with `http://` or `https://`.
pub fn is_url(input: &str) -> (r: bool)
    ensures
        r == is_url_spec(input@),
{
    has_prefix(input, "http://") || has_prefix(input, "https://")
}

/// The specifications applied to every fetched page.
pub open spec fn page_specs() -> Seq<Seq<char>> {
    seq![
        "h1"@, "h2"@, "h3"@, "h4"@, "p"@, "article"@, "td"@, "ul"@, "li"@, "lo"@, "a"@, "a.href"@,
    ]
}

/// The fixed specification list used on fetched pages.
pub fn default_specs() -> (r: Vec<String>)
    ensures
        string_views(r@) == page_specs(),
{
    let mut r: Vec<String> = Vec::new();
    r.push(String::from_str("h1"));
    r.push(String::from_str("h2"));
    r.push(String::from_str("h3"));
    r.push(String::from_str("h4"));
    r.push(String::from_str("p"));
    r.push(String::from_str("article"));
    r.push(String::from_str("td"));
    r.push(String::from_str("ul"));
    r.push(String::from_str("li"));
    r.push(String::from_str("lo"));
    r.push(String::from_str("a"));
    r.push(String::from_str("a.href"));
    assert(string_views(r@) =~= page_specs());
    r
}

pub open spec fn values_of(pairs: Seq<(Seq<char>, Seq<char>)>) -> Seq<Seq<char>> {
    pairs.map_values(|p: (Seq<char>, Seq<char>)| p.1)
}

/// The values of `pairs`, in order, joined with single spaces.
pub fn text_blob(pairs: &Vec<TagValuePair>) -> (r: String)
    ensures
        r@ == join_with(values_of(pairs_view(pairs@)), " "@),
{
    let mut vals: Vec<String> = Vec::new();
    let mut i: usize = 0;
    while i < pairs.len()
        invariant
            i <= pairs.len(),
            string_views(vals@) =~= values_of(pairs_view(pairs@)).take(i as int),
        decreases pairs.len() - i,
    {
        let ghost old_vals = vals@;
        vals.push(pairs[i].value.clone());
        assert(string_views(vals@) =~= string_views(old_vals).push(pairs@[i as int].value@));
        assert(pairs_view(pairs@)[i as int] == pairs@[i as int]@);
        i = i + 1;
    }
    assert(values_of(pairs_view(pairs@)).take(i as int) =~= values_of(pairs_view(pairs@)));
    join_strings(&vals, " ")
}

/// The article text of a page: what the fixed specifications extract from
/// its nodes, joined with single spaces in extraction order.
pub open spec fn page_blob(nodes: Seq<NodeView>) -> Seq<char> {
    join_with(values_of(extracted(nodes, page_specs())), " "@)
}

/// What to do first with an input.
pub enum Step {
    /// Fetch this URL, then continue with `after_fetch`.
    Fetch(String),
    /// Send this request to the chat endpoint.
    Chat(ChatRequest),
}

/// The first decision of a run: fetch a URL input, or build the chat
/// request over a text input at once.
pub fn begin(input: &str, entities: &Vec<String>) -> (r: Step)
    ensures
        (r is Fetch) == is_url_spec(input@),
        r is Fetch ==> r->Fetch_0@ == input@,
        r is Chat ==> is_request_for(r->Chat_0, prompt_spec(string_views(entities@), input@)),
{
    if is_url(input) {
        Step::Fetch(String::from_str(input))
    } else {
        let prompt = build_prompt(entities, input);
        Step::Chat(chat_request(prompt.as_str()))
    }
}

/// The chat request over a fetched page, once parsed.
pub fn after_fetch(d: &Document, entities: &Vec<String>) -> (r: ChatRequest)
    ensures
        is_request_for(r, prompt_spec(string_views(entities@), page_blob(doc_nodes(*d)))),
{
    let specs = default_specs();
    assert(crate::extract::views_of(specs@) =~= page_specs());
    let pairs = extract_pairs(d, &specs);
    let blob = text_blob(&pairs);
    let prompt = build_prompt(entities, blob.as_str());
    chat_request(prompt.as_str())
}

/// The chat request over the HTML text of a fetched page.
pub fn after_fetch_html(html: &str, entities: &Vec<String>) -> (r: ChatRequest)
    requires
        html@.len() <= MAX_HTML_CHARS,
    ensures
        is_request_for(r, prompt_spec(string_views(entities@), page_blob(parsed_nodes(html@)))),
{
    let d = parse_document(html);
    after_fetch(&d, entities)
}

pub open spec fn too_large_text() -> Seq<char> {
    "the fetched page is too large to parse"@
}

/// The step after a fetch: a failed fetch ends the run with a network error
/// and no chat request; a page too large to parse ends it the same way;
/// any other page gives the chat request over its text.
pub fn after_fetch_result(fetched: Result<String, String>, entities: &Vec<String>) -> (r: Result<
    ChatRequest,
    ExtractError,
>)
    ensures
        match fetched {
            Err(m) => r == Err::<ChatRequest, ExtractError>(ExtractError::Network(m)),
            Ok(html) => if html@.len() <= MAX_HTML_CHARS {
                r is Ok && is_request_for(
                    r->Ok_0,
                    prompt_spec(string_views(entities@), page_blob(parsed_nodes(html@))),
                )
            } else {
                r matches Err(ExtractError::Network(m)) && m@ == too_large_text()
            },
        },
{
    match fetched {
        Err(m) => Err(ExtractError::Network(m)),
        Ok(html) => {
            if html.as_str().unicode_len() <= MAX_HTML_CHARS {
                Ok(after_fetch_html(html.as_str(), entities))
            } else {
                Err(ExtractError::Network(String::from_str("the fetched page is too large to parse")))
            }
        },
    }
}

} // verus!
