use vstd::prelude::*;
use crate::chars::{chars_of, push_str, string_of};
use crate::types::{models, PropertyType, TypeModel, TypeParseError};

verus! {

/// A character that may stand in a name or a dictionary token.
pub open spec fn is_token_char(c: char) -> bool {
    ('a' <= c && c <= 'z') || ('A' <= c && c <= 'Z') || ('0' <= c && c <= '9') || c == '.' || c == '_'
}

/// The end of the run of token characters that starts at `p`.
pub open spec fn token_end(s: Seq<char>, p: int) -> int
    decreases s.len() - p,
{
    if 0 <= p < s.len() && is_token_char(s[p]) {
        token_end(s, p + 1)
    } else {
        p
    }
}

/// The end of the run of spaces and newlines that starts at `p`.
pub open spec fn skip_blank(s: Seq<char>, p: int) -> int
    decreases s.len() - p,
{
    if 0 <= p < s.len() && (s[p] == ' ' || s[p] == '\n') {
        skip_blank(s, p + 1)
    } else {
        p
    }
}

/// Whether `s[p]` exists and is `c`.
pub open spec fn char_at(s: Seq<char>, p: int, c: char) -> bool {
    0 <= p < s.len() && s[p] == c
}

/// A name at `p`: a dotted name stands for the string type.
pub open spec fn parse_ref(s: Seq<char>, p: int) -> Option<(TypeModel, int)> {
    let e = token_end(s, p);
    if e > p {
        let name = s.subrange(p, e);
        if name.contains('.') {
            Some((TypeModel::Ref("string"@), e))
        } else {
            Some((TypeModel::Ref(name), e))
        }
    } else {
        None
    }
}

/// A constant at `p`: a token between backticks.
pub open spec fn parse_constant(s: Seq<char>, p: int) -> Option<(TypeModel, int)> {
    let e = token_end(s, p + 1);
    if char_at(s, p, '`') && e > p + 1 && char_at(s, e, '`') {
        Some((TypeModel::Constant(s.subrange(p + 1, e)), e + 1))
    } else {
        None
    }
}

/// A dictionary at `p`: `{key:value}`, blanks allowed around each token.
pub open spec fn parse_dict(s: Seq<char>, p: int) -> Option<(TypeModel, int)> {
    let a = skip_blank(s, p + 1);
    let b = token_end(s, a);
    let c = skip_blank(s, b);
    let d = skip_blank(s, c + 1);
    let e = token_end(s, d);
    let f = skip_blank(s, e);
    if char_at(s, p, '{') && b > a && char_at(s, c, ':') && e > d && char_at(s, f, '}') {
        Some((TypeModel::Dict, f + 1))
    } else {
        None
    }
}

/// An array at `p`: a type between square brackets.
pub open spec fn parse_array(s: Seq<char>, p: int) -> Option<(TypeModel, int)>
    decreases s.len() - p, 1int,
{
    if char_at(s, p, '[') {
        match parse_union(s, p + 1) {
            Some((t, e)) => if char_at(s, e, ']') {
                Some((TypeModel::ArrayOf(Box::new(t)), e + 1))
            } else {
                None
            },
            None => None,
        }
    } else {
        None
    }
}

/// A type other than a union at `p`: the first of array, dictionary,
/// constant and name that matches.
pub open spec fn parse_single(s: Seq<char>, p: int) -> Option<(TypeModel, int)>
    decreases s.len() - p, 2int,
{
    if parse_array(s, p) is Some {
        parse_array(s, p)
    } else if parse_dict(s, p) is Some {
        parse_dict(s, p)
    } else if parse_constant(s, p) is Some {
        parse_constant(s, p)
    } else {
        parse_ref(s, p)
    }
}

/// The further alternatives `|t` that follow at `p`, as many as match, and
/// the position after the last of them.
pub open spec fn parse_alternatives(s: Seq<char>, p: int) -> (Seq<TypeModel>, int)
    decreases s.len() - p, 0int,
{
    if 0 <= p && char_at(s, p, '|') {
        match parse_single(s, p + 1) {
            Some((t, e)) => if p + 1 < e <= s.len() {
                let (ts, end) = parse_alternatives(s, e);
                (seq![t] + ts, end)
            } else {
                (seq![], p)
            },
            None => (seq![], p),
        }
    } else {
        (seq![], p)
    }
}

/// A type at `p`. The union form is tried first; since a single type is a
/// union of one, the union form always applies where any type does, and the
/// result is a `OneOf` of the alternatives in the order written. (An end
/// always lies past its start and within `s`.)
pub open spec fn parse_union(s: Seq<char>, p: int) -> Option<(TypeModel, int)>
    decreases s.len() - p, 3int,
{
    match parse_single(s, p) {
        Some((t, e)) => if p < e <= s.len() {
            let (ts, end) = parse_alternatives(s, e);
            Some((TypeModel::OneOf(seq![t] + ts), end))
        } else {
            None
        },
        None => None,
    }
}

/// The type that the whole annotation `s` denotes, or the position where
/// parsing stopped.
pub open spec fn type_of(s: Seq<char>) -> Result<TypeModel, int> {
    match parse_union(s, 0) {
        Some((t, e)) => if e == s.len() {
            Ok(t)
        } else {
            Err(e)
        },
        None => Err(0),
    }
}

fn is_token(c: char) -> (r: bool)
    ensures
        r == is_token_char(c),
{
    ('a' <= c && c <= 'z') || ('A' <= c && c <= 'Z') || ('0' <= c && c <= '9') || c == '.' || c == '_'
}

fn token_end_at(s: &Vec<char>, p: usize) -> (r: usize)
    requires
        p <= s@.len(),
    ensures
        r == token_end(s@, p as int),
        p <= r <= s@.len(),
{
    let mut i: usize = p;
    while i < s.len() && is_token(s[i])
        invariant
            p <= i <= s@.len(),
            token_end(s@, p as int) == token_end(s@, i as int),
        decreases s@.len() - i,
    {
        i = i + 1;
    }
    i
}

fn skip_blank_at(s: &Vec<char>, p: usize) -> (r: usize)
    requires
        p <= s@.len(),
    ensures
        r == skip_blank(s@, p as int),
        p <= r <= s@.len(),
{
    let mut i: usize = p;
    while i < s.len() && (s[i] == ' ' || s[i] == '\n')
        invariant
            p <= i <= s@.len(),
            skip_blank(s@, p as int) == skip_blank(s@, i as int),
        decreases s@.len() - i,
    {
        i = i + 1;
    }
    i
}

fn is_at(s: &Vec<char>, p: usize, c: char) -> (r: bool)
    ensures
        r == char_at(s@, p as int, c),
{
    p < s.len() && s[p] == c
}

fn copy_range(s: &Vec<char>, from: usize, to: usize) -> (r: String)
    requires
        from <= to <= s@.len(),
    ensures
        r@ == s@.subrange(from as int, to as int),
{
    let mut v: Vec<char> = Vec::new();
    let mut k: usize = from;
    while k < to
        invariant
            from <= k <= to <= s@.len(),
            v@ == s@.subrange(from as int, k as int),
        decreases to - k,
    {
        v.push(s[k]);
        k = k + 1;
    }
    string_of(&v)
}

fn ref_at(s: &Vec<char>, p: usize) -> (r: Option<(PropertyType, usize)>)
    requires
        p <= s@.len(),
    ensures
        match r {
            Some((t, e)) => parse_ref(s@, p as int) == Some((t.model(), e as int)) && p < e <= s@.len(),
            None => parse_ref(s@, p as int) is None,
        },
{
    let e = token_end_at(s, p);
    if e > p {
        let mut dotted = false;
        let mut k: usize = p;
        while k < e
            invariant
                p <= k <= e <= s@.len(),
                dotted == exists|j: int| p <= j < k && s@[j] == '.',
            decreases e - k,
        {
            if s[k] == '.' {
                dotted = true;
            }
            k = k + 1;
        }
        let ghost name = s@.subrange(p as int, e as int);
        assert(dotted == name.contains('.')) by {
            if dotted {
                let j = choose|j: int| p <= j < e && s@[j] == '.';
                assert(name[j - p] == '.');
            }
            if name.contains('.') {
                let j = choose|j: int| 0 <= j < name.len() && name[j] == '.';
                assert(s@[p + j] == '.');
            }
        };
        if dotted {
            let mut v: Vec<char> = Vec::new();
            push_str(&mut v, "string");
            Some((PropertyType::Ref(string_of(&v)), e))
        } else {
            Some((PropertyType::Ref(copy_range(s, p, e)), e))
        }
    } else {
        None
    }
}

fn constant_at(s: &Vec<char>, p: usize) -> (r: Option<(PropertyType, usize)>)
    requires
        p <= s@.len(),
    ensures
        match r {
            Some((t, e)) => parse_constant(s@, p as int) == Some((t.model(), e as int)) && p < e <= s@.len(),
            None => parse_constant(s@, p as int) is None,
        },
{
    let n = s.len();
    if !is_at(s, p, '`') {
        return None;
    }
    let e = token_end_at(s, p + 1);
    if e > p + 1 && is_at(s, e, '`') {
        Some((PropertyType::Constant(copy_range(s, p + 1, e)), e + 1))
    } else {
        None
    }
}

fn dict_at(s: &Vec<char>, p: usize) -> (r: Option<(PropertyType, usize)>)
    requires
        p <= s@.len(),
    ensures
        match r {
            Some((t, e)) => parse_dict(s@, p as int) == Some((t.model(), e as int)) && p < e <= s@.len(),
            None => parse_dict(s@, p as int) is None,
        },
{
    let n = s.len();
    if !is_at(s, p, '{') {
        return None;
    }
    let a = skip_blank_at(s, p + 1);
    let b = token_end_at(s, a);
    let c = skip_blank_at(s, b);
    if !(b > a && is_at(s, c, ':')) {
        return None;
    }
    let d = skip_blank_at(s, c + 1);
    let e = token_end_at(s, d);
    let f = skip_blank_at(s, e);
    if e > d && is_at(s, f, '}') {
        Some((PropertyType::Dict, f + 1))
    } else {
        None
    }
}

fn array_at(s: &Vec<char>, p: usize) -> (r: Option<(PropertyType, usize)>)
    requires
        p <= s@.len(),
    ensures
        match r {
            Some((t, e)) => parse_array(s@, p as int) == Some((t.model(), e as int)) && p < e <= s@.len(),
            None => parse_array(s@, p as int) is None,
        },
    decreases s@.len() - p, 1int,
{
    let n = s.len();
    if !is_at(s, p, '[') {
        return None;
    }
    match union_at(s, p + 1) {
        Some((t, e)) => {
            if is_at(s, e, ']') {
                Some((PropertyType::ArrayOf(Box::new(t)), e + 1))
            } else {
                None
            }
        },
        None => None,
    }
}

fn single_at(s: &Vec<char>, p: usize) -> (r: Option<(PropertyType, usize)>)
    requires
        p <= s@.len(),
    ensures
        match r {
            Some((t, e)) => parse_single(s@, p as int) == Some((t.model(), e as int)) && p < e <= s@.len(),
            None => parse_single(s@, p as int) is None,
        },
    decreases s@.len() - p, 2int,
{
    let a = array_at(s, p);
    if a.is_some() {
        return a;
    }
    let d = dict_at(s, p);
    if d.is_some() {
        return d;
    }
    let c = constant_at(s, p);
    if c.is_some() {
        return c;
    }
    ref_at(s, p)
}

fn union_at(s: &Vec<char>, p: usize) -> (r: Option<(PropertyType, usize)>)
    requires
        p <= s@.len(),
    ensures
        match r {
            Some((t, e)) => parse_union(s@, p as int) == Some((t.model(), e as int)) && p < e <= s@.len(),
            None => parse_union(s@, p as int) is None,
        },
    decreases s@.len() - p, 3int,
{
    match single_at(s, p) {
        Some((first, e0)) => {
            let mut ts: Vec<PropertyType> = Vec::new();
            ts.push(first);
            let mut e: usize = e0;
            let n = s.len();
            assert(models(ts@) == seq![first.model()]) by {
                assert(ts@.drop_last() == Seq::<PropertyType>::empty());
                assert(models(ts@.drop_last()) == Seq::<TypeModel>::empty());
            };
            while is_at(s, e, '|')
                invariant
                    p < e0 <= e <= s@.len(),
                    ts@.len() >= 1,
                    ({
                        let (rest, end) = parse_alternatives(s@, e as int);
                        let (all, end0) = parse_alternatives(s@, e0 as int);
                        &&& models(ts@) + rest == seq![first.model()] + all
                        &&& end == end0
                    }),
                    n == s@.len(),
                ensures
                    parse_alternatives(s@, e as int) == (Seq::<TypeModel>::empty(), e as int),
                decreases s@.len() - e,
            {
                match single_at(s, e + 1) {
                    Some((t, e2)) => {
                        let ghost before = ts@;
                        ts.push(t);
                        assert(ts@.drop_last() == before);
                        let ghost (rest, _end) = parse_alternatives(s@, e2 as int);
                        assert(models(ts@) + rest =~= models(before) + (seq![t.model()] + rest));
                        e = e2;
                    },
                    None => {
                        break;
                    },
                }
            }
            proof {
                let (rest, end) = parse_alternatives(s@, e as int);
                assert(rest == Seq::<TypeModel>::empty());
                assert(models(ts@) + rest == models(ts@));
            }
            Some((PropertyType::OneOf(ts), e))
        },
        None => None,
    }
}

/// Parses a type annotation. The whole text must be one type; otherwise the
/// error gives the text and the position where parsing stopped.
pub fn parse_type(text: &str) -> (r: Result<PropertyType, TypeParseError>)
    ensures
        match r {
            Ok(t) => type_of(text@) == Ok::<TypeModel, int>(t.model()),
            Err(err) => type_of(text@) == Err::<TypeModel, int>(err.position as int) && err.text@ == text@,
        },
{
    let s = chars_of(text);
    match union_at(&s, 0) {
        Some((t, e)) => {
            if e == s.len() {
                Ok(t)
            } else {
                let mut v: Vec<char> = Vec::new();
                push_str(&mut v, text);
                Err(TypeParseError { text: string_of(&v), position: e })
            }
        },
        None => {
            let mut v: Vec<char> = Vec::new();
            push_str(&mut v, text);
            Err(TypeParseError { text: string_of(&v), position: 0 })
        },
    }
}

} // verus!
