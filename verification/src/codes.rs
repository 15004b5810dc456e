use vstd::prelude::*;

verus! {

/// Whether `a` comes strictly before `b` in the lexicographic order of their
/// characters' code points, the order of Rust's strings.
pub open spec fn chars_lt(a: Seq<char>, b: Seq<char>) -> bool
    decreases a.len(),
{
    if a.len() == 0 {
        b.len() > 0
    } else if b.len() == 0 {
        false
    } else if a[0] != b[0] {
        (a[0] as int) < (b[0] as int)
    } else {
        chars_lt(a.drop_first(), b.drop_first())
    }
}

/// The order of optional item codes: no item first, then the codes in order.
pub open spec fn code_lt(a: Option<Seq<char>>, b: Option<Seq<char>>) -> bool {
    match (a, b) {
        (None, Some(_)) => true,
        (Some(x), Some(y)) => chars_lt(x, y),
        _ => false,
    }
}

pub open spec fn code_le(a: Option<Seq<char>>, b: Option<Seq<char>>) -> bool {
    a == b || code_lt(a, b)
}

pub open spec fn code_view(a: Option<String>) -> Option<Seq<char>> {
    match a {
        Some(s) => Some(s@),
        None => None,
    }
}

pub proof fn lemma_chars_lt_irreflexive(a: Seq<char>)
    ensures
        !chars_lt(a, a),
    decreases a.len(),
{
    if a.len() > 0 {
        lemma_chars_lt_irreflexive(a.drop_first());
    }
}

pub proof fn lemma_chars_lt_transitive(a: Seq<char>, b: Seq<char>, c: Seq<char>)
    requires
        chars_lt(a, b),
        chars_lt(b, c),
    ensures
        chars_lt(a, c),
    decreases a.len(),
{
    if a.len() > 0 && b.len() > 0 && c.len() > 0 {
        if a[0] == b[0] && b[0] == c[0] {
            lemma_chars_lt_transitive(a.drop_first(), b.drop_first(), c.drop_first());
        }
    }
}

pub proof fn lemma_chars_lt_total(a: Seq<char>, b: Seq<char>)
    ensures
        a == b || chars_lt(a, b) || chars_lt(b, a),
    decreases a.len(),
{
    if a.len() > 0 && b.len() > 0 && a[0] == b[0] {
        lemma_chars_lt_total(a.drop_first(), b.drop_first());
        if a.drop_first() == b.drop_first() {
            assert(a =~= seq![a[0]] + a.drop_first());
            assert(b =~= seq![b[0]] + b.drop_first());
        }
    } else if a.len() > 0 && b.len() > 0 {
        assert((a[0] as int) != (b[0] as int));
    } else if a.len() == 0 && b.len() == 0 {
        assert(a =~= b);
    }
}

/// The order of optional codes is a strict total order.
pub proof fn lemma_code_order(a: Option<Seq<char>>, b: Option<Seq<char>>, c: Option<Seq<char>>)
    ensures
        !code_lt(a, a),
        code_lt(a, b) && code_lt(b, c) ==> code_lt(a, c),
        a == b || code_lt(a, b) || code_lt(b, a),
{
    if let Some(x) = a {
        lemma_chars_lt_irreflexive(x);
        if let (Some(y), Some(z)) = (b, c) {
            if code_lt(a, b) && code_lt(b, c) {
                lemma_chars_lt_transitive(x, y, z);
            }
        }
        if let Some(y) = b {
            lemma_chars_lt_total(x, y);
        }
    }
}

/// Whether `a` comes strictly before `b`.
pub fn string_lt(a: &String, b: &String) -> (res: bool)
    ensures
        res == chars_lt(a@, b@),
{
    let sa = a.as_str();
    let sb = b.as_str();
    let la = sa.unicode_len();
    let lb = sb.unicode_len();
    let mut i: usize = 0;
    assert(a@.skip(0) =~= a@);
    assert(b@.skip(0) =~= b@);
    while i < la && i < lb
        invariant
            la == a@.len(),
            lb == b@.len(),
            sa@ == a@,
            sb@ == b@,
            i <= la,
            i <= lb,
            chars_lt(a@, b@) == chars_lt(a@.skip(i as int), b@.skip(i as int)),
        decreases la - i,
    {
        let ca = sa.get_char(i);
        let cb = sb.get_char(i);
        assert(a@.skip(i as int)[0] == ca);
        assert(b@.skip(i as int)[0] == cb);
        if ca != cb {
            return (ca as u32) < (cb as u32);
        }
        assert(a@.skip(i as int).drop_first() =~= a@.skip(i + 1));
        assert(b@.skip(i as int).drop_first() =~= b@.skip(i + 1));
        i = i + 1;
    }
    la - i == 0 && lb - i > 0
}

/// Whether the optional code `a` comes strictly before `b`.
pub fn code_lt_exec(a: &Option<String>, b: &Option<String>) -> (res: bool)
    ensures
        res == code_lt(code_view(*a), code_view(*b)),
{
    match (a, b) {
        (None, Some(_)) => true,
        (Some(x), Some(y)) => string_lt(x, y),
        _ => false,
    }
}

/// Whether the optional codes are equal.
pub fn code_eq(a: &Option<String>, b: &Option<String>) -> (res: bool)
    ensures
        res == (code_view(*a) == code_view(*b)),
{
    match (a, b) {
        (None, None) => true,
        (Some(x), Some(y)) => *x == *y,
        _ => false,
    }
}

pub fn code_clone(a: &Option<String>) -> (res: Option<String>)
    ensures
        code_view(res) == code_view(*a),
{
    match a {
        Some(x) => Some(x.clone()),
        None => None,
    }
}

} // verus!
