use vstd::prelude::*;
use crate::chat::ExtractError;
use crate::prompt::string_views;

verus! {

/// The pieces of `s` between occurrences of `sep`; an empty string gives one
/// empty piece.
pub open spec fn split_on(s: Seq<char>, sep: char) -> Seq<Seq<char>>
    decreases s.len(),
{
    if s.len() == 0 {
        seq![Seq::empty()]
    } else {
        let r = split_on(s.drop_last(), sep);
        if s.last() == sep {
            r.push(Seq::empty())
        } else {
            r.update(r.len() - 1, r.last().push(s.last()))
        }
    }
}

proof fn lemma_split_nonempty(s: Seq<char>, sep: char)
    ensures
        split_on(s, sep).len() >= 1,
    decreases s.len(),
{
    if s.len() > 0 {
        lemma_split_nonempty(s.drop_last(), sep);
    }
}

/// Splits `s` at every `sep`, keeping empty pieces.
pub fn split_string(s: &str, sep: char) -> (r: Vec<String>)
    ensures
        string_views(r@) == split_on(s@, sep),
{
    let n = s.unicode_len();
    let mut r: Vec<String> = Vec::new();
    let mut start: usize = 0;
    let mut i: usize = 0;
    assert(s@.take(0) =~= Seq::<char>::empty());
    assert(s@.subrange(0, 0) =~= Seq::<char>::empty());
    assert(string_views(r@).push(s@.subrange(0, 0)) =~= seq![Seq::<char>::empty()]);
    while i < n
        invariant
            n == s@.len(),
            start <= i <= n,
            string_views(r@).push(s@.subrange(start as int, i as int)) == split_on(s@.take(i as int), sep),
        decreases n - i,
    {
        let ghost prev = s@.take(i as int);
        let ghost next = s@.take(i + 1);
        assert(next.drop_last() =~= prev);
        proof { lemma_split_nonempty(prev, sep); }
        let c = s.get_char(i);
        if c == sep {
            let piece = s.substring_char(start, i);
            let ghost old_r = r@;
            r.push(String::from_str(piece));
            proof {
                assert(string_views(r@) =~= string_views(old_r).push(s@.subrange(start as int, i as int)));
                assert(s@.subrange(i + 1, i + 1) =~= Seq::<char>::empty());
            }
            start = i + 1;
        } else {
            proof {
                let sv = string_views(r@);
                assert(next.last() == c);
                assert(s@.subrange(start as int, i + 1) =~= s@.subrange(start as int, i as int).push(c));
                assert(sv.push(s@.subrange(start as int, i + 1)) =~= sv.push(s@.subrange(start as int, i as int)).update(
                    sv.len() as int,
                    s@.subrange(start as int, i as int).push(c),
                ));
            }
        }
        i = i + 1;
    }
    assert(s@.take(n as int) =~= s@);
    let last = s.substring_char(start, n);
    r.push(String::from_str(last));
    proof {
        assert(string_views(r@) =~= string_views(r@.drop_last()).push(s@.subrange(start as int, n as int)));
    }
    r
}

/// Everything one run needs.
pub struct Config {
    pub input: String,
    pub entities: Vec<String>,
    pub api_key: String,
    pub proxy_url: Option<String>,
}

pub open spec fn usage_text() -> Seq<char> {
    "Usage: cargo run <input> [entities_comma_separated]"@
}

pub open spec fn missing_key_text() -> Seq<char> {
    "the API key is not set"@
}

/// Reads the command line (`args[0]` is the program) and the API key:
/// `args[1]` is the input, `args[2]`, when present, the comma-separated
/// entity types.
pub fn config_from_args(args: &Vec<String>, api_key: Option<String>, proxy_url: Option<String>) -> (r: Result<Config, ExtractError>)
    ensures
        args.len() < 2 ==> (r matches Err(ExtractError::Usage(m)) && m@ == usage_text()),
        args.len() >= 2 && api_key is None ==> (r matches Err(ExtractError::Usage(m)) && m@ == missing_key_text()),
        args.len() >= 2 && api_key is Some ==> (r matches Ok(c) && {
            &&& c.input@ == args[1]@
            &&& string_views(c.entities@) == (if args.len() > 2 {
                split_on(args[2]@, ',')
            } else {
                Seq::empty()
            })
            &&& c.api_key == api_key->Some_0
            &&& c.proxy_url == proxy_url
        }),
{
    if args.len() < 2 {
        return Err(ExtractError::Usage(String::from_str("Usage: cargo run <input> [entities_comma_separated]")));
    }
    match api_key {
        None => Err(ExtractError::Usage(String::from_str("the API key is not set"))),
        Some(key) => {
            let entities = if args.len() > 2 {
                split_string(args[2].as_str(), ',')
            } else {
                let v: Vec<String> = Vec::new();
                assert(string_views(v@) =~= Seq::empty());
                v
            };
            Ok(Config { input: args[1].clone(), entities, api_key: key, proxy_url })
        },
    }
}

} // verus!
