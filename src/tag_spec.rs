use vstd::prelude::*;

verus! {

/// True when the string holds no `.`.
pub open spec fn no_dot(s: Seq<char>) -> bool {
    forall|i: int| 0 <= i < s.len() ==> s[i] != '.'
}

/// `s` is `elem.attr` with the only dot at `k` and both sides non-empty.
pub open spec fn attr_split_at(s: Seq<char>, k: int) -> bool {
    &&& 0 < k < s.len() - 1
    &&& s[k] == '.'
    &&& no_dot(s.take(k))
    &&& no_dot(s.skip(k + 1))
}

/// What a specification string selects.
pub enum SpecForm {
    Element(Seq<char>),
    Attribute(Seq<char>, Seq<char>),
    Unmatchable,
}

/// The meaning of a specification string: a bare element name, an
/// `element.attribute` pair, or (more than one dot, an empty side) nothing.
pub open spec fn form_of(s: Seq<char>) -> SpecForm {
    if no_dot(s) {
        SpecForm::Element(s)
    } else if exists|k: int| attr_split_at(s, k) {
        let k = choose|k: int| attr_split_at(s, k);
        SpecForm::Attribute(s.take(k), s.skip(k + 1))
    } else {
        SpecForm::Unmatchable
    }
}

/// A tag specification, parsed once.
pub enum TagSpec {
    Element(String),
    Attribute(String, String),
    Unmatchable,
}

impl View for TagSpec {
    type V = SpecForm;

    open spec fn view(&self) -> SpecForm {
        match self {
            TagSpec::Element(e) => SpecForm::Element(e@),
            TagSpec::Attribute(e, a) => SpecForm::Attribute(e@, a@),
            TagSpec::Unmatchable => SpecForm::Unmatchable,
        }
    }
}

proof fn lemma_split_unique(s: Seq<char>, k1: int, k2: int)
    requires
        attr_split_at(s, k1),
        attr_split_at(s, k2),
    ensures
        k1 == k2,
{
    if k1 < k2 {
        assert(s.take(k2)[k1] == s[k1]);
    } else if k2 < k1 {
        assert(s.take(k1)[k2] == s[k2]);
    }
}

/// Parses `element` or `element.attribute`.
pub fn parse_tag_spec(s: &str) -> (r: TagSpec)
    ensures
        r@ == form_of(s@),
{
    let n = s.unicode_len();
    let mut dots: usize = 0;
    let mut first: usize = 0;
    let mut second: usize = 0;
    let mut i: usize = 0;
    while i < n
        invariant
            n == s@.len(),
            i <= n,
            dots <= i,
            dots == 0 ==> no_dot(s@.take(i as int)),
            dots >= 1 ==> first < i && s@[first as int] == '.' && no_dot(s@.take(first as int)),
            dots >= 2 ==> first < second < i && s@[second as int] == '.',
            dots == 1 ==> no_dot(s@.take(i as int).skip(first + 1)),
        decreases n - i,
    {
        let c = s.get_char(i);
        if c == '.' {
            if dots == 0 {
                first = i;
                assert(s@.take(first as int) =~= s@.take(i as int));
            } else if dots == 1 {
                second = i;
            }
            dots = dots + 1;
        }
        proof {
            if dots == 1 {
                assert forall|j: int| 0 <= j < s@.take(i + 1).skip(first + 1).len() implies
                    #[trigger] s@.take(i + 1).skip(first + 1)[j] != '.' by {
                    assert(s@.take(i + 1).skip(first + 1)[j] == s@[first + 1 + j]);
                    if first + 1 + j < i {
                        assert(s@.take(i as int).skip(first + 1)[j] == s@[first + 1 + j]);
                    }
                }
            }
            if dots == 0 {
                assert forall|j: int| 0 <= j < i + 1 implies #[trigger] s@.take(i + 1)[j] != '.' by {
                    if j < i {
                        assert(s@.take(i as int)[j] == s@[j]);
                    }
                }
            }
        }
        i = i + 1;
    }
    assert(s@.take(n as int) =~= s@);
    if dots == 0 {
        TagSpec::Element(String::from_str(s))
    } else if dots == 1 && first > 0 && first + 1 < n {
        proof {
            assert(s@.take(n as int).skip(first + 1) =~= s@.skip(first + 1));
            assert(attr_split_at(s@, first as int));
            let k = choose|k: int| attr_split_at(s@, k);
            lemma_split_unique(s@, k, first as int);
        }
        let e = s.substring_char(0, first);
        let a = s.substring_char(first + 1, n);
        proof {
            assert(e@ =~= s@.take(first as int));
            assert(a@ =~= s@.skip(first + 1));
        }
        TagSpec::Attribute(String::from_str(e), String::from_str(a))
    } else {
        proof {
            assert(!no_dot(s@));
            if exists|k: int| attr_split_at(s@, k) {
                let k = choose|k: int| attr_split_at(s@, k);
                if dots >= 2 {
                    if k > first {
                        assert(s@.take(k)[first as int] == s@[first as int]);
                    }
                    if k < first {
                        assert(s@.take(first as int)[k] == s@[k]);
                    }
                    assert(s@.skip(k + 1)[second - k - 1] == s@[second as int]);
                } else {
                    lemma_split_unique(s@, k, first as int);
                }
            }
        }
        TagSpec::Unmatchable
    }
}

} // verus!
