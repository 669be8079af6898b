use vstd::prelude::*;

verus! {

/// The strings of `vals` with `sep` between each two neighbours.
pub open spec fn join_with(vals: Seq<Seq<char>>, sep: Seq<char>) -> Seq<char>
    decreases vals.len(),
{
    if vals.len() == 0 {
        Seq::empty()
    } else if vals.len() == 1 {
        vals[0]
    } else {
        join_with(vals.drop_last(), sep) + sep + vals.last()
    }
}

pub open spec fn string_views(v: Seq<String>) -> Seq<Seq<char>> {
    v.map_values(|s: String| s@)
}

/// Joins `vals` with `sep`, in order.
pub fn join_strings(vals: &Vec<String>, sep: &str) -> (r: String)
    ensures
        r@ == join_with(string_views(vals@), sep@),
{
    let mut r = String::new();
    let mut i: usize = 0;
    while i < vals.len()
        invariant
            i <= vals.len(),
            r@ == join_with(string_views(vals@).take(i as int), sep@),
        decreases vals.len() - i,
    {
        let ghost prev = string_views(vals@).take(i as int);
        let ghost next = string_views(vals@).take(i + 1);
        assert(next.drop_last() =~= prev);
        if i > 0 {
            r.append(sep);
        }
        r.append(vals[i].as_str());
        proof {
            if i == 0 {
                assert(r@ =~= next[0]);
            } else {
                assert(r@ =~= join_with(prev, sep@) + sep@ + next.last());
            }
        }
        i = i + 1;
    }
    assert(string_views(vals@).take(vals.len() as int) =~= string_views(vals@));
    r
}

pub open spec fn no_entities() -> Seq<char> {
    "<no entities provided>"@
}

/// The entity types as they stand in the prompt.
pub open spec fn entities_spec(entities: Seq<Seq<char>>) -> Seq<char> {
    if entities.len() == 0 {
        no_entities()
    } else {
        join_with(entities, ", "@)
    }
}

/// The entity types joined with `, `, or `<no entities provided>` when there are none.
pub fn entities_text(entities: &Vec<String>) -> (r: String)
    ensures
        r@ == entities_spec(string_views(entities@)),
{
    if entities.len() == 0 {
        String::from_str("<no entities provided>")
    } else {
        join_strings(entities, ", ")
    }
}

pub open spec fn prompt_head() -> Seq<char> {
    "extract the following entities from this article and return a JSON with edges and nodes, both lists of objects. Each object in the nodes JSON list can have the keys (value, type) and valid types are "@
}

pub open spec fn prompt_tail() -> Seq<char> {
    ". The list of edges each have keys (from, to, type) where from and to are node values and type is a verblike word or phrase.\n\n"@
}

/// The user message for entity types `entities` and article `blob`.
pub open spec fn prompt_spec(entities: Seq<Seq<char>>, blob: Seq<char>) -> Seq<char> {
    prompt_head() + entities_spec(entities) + prompt_tail() + blob
}

/// Builds the user message that asks for the graph of `blob`.
pub fn build_prompt(entities: &Vec<String>, blob: &str) -> (r: String)
    ensures
        r@ == prompt_spec(string_views(entities@), blob@),
{
    let mut r = String::from_str("extract the following entities from this article and return a JSON with edges and nodes, both lists of objects. Each object in the nodes JSON list can have the keys (value, type) and valid types are ");
    let ents = entities_text(entities);
    r.append(ents.as_str());
    r.append(". The list of edges each have keys (from, to, type) where from and to are node values and type is a verblike word or phrase.\n\n");
    r.append(blob);
    r
}

/// With no entity types the prompt names `<no entities provided>` right
/// after the head of the template, followed by the period that ends the
/// sentence, not by a comma.
pub proof fn lemma_empty_entities_sentinel(entities: Seq<Seq<char>>, blob: Seq<char>)
    requires
        entities.len() == 0,
    ensures
        ({
            let p = prompt_spec(entities, blob);
            let h = prompt_head().len() as int;
            let n = no_entities().len() as int;
            &&& p.subrange(h, h + n) == no_entities()
            &&& p[h + n] == '.'
            &&& p[h + n] != ','
        }),
{
    let p = prompt_spec(entities, blob);
    let h = prompt_head().len() as int;
    let n = no_entities().len() as int;
    reveal_strlit(". The list of edges each have keys (from, to, type) where from and to are node values and type is a verblike word or phrase.\n\n");
    assert(p.subrange(h, h + n) =~= no_entities());
    assert(p[h + n] == prompt_tail()[0]);
}

} // verus!
