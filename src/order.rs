//! How sort keys are ordered.

use vstd::prelude::*;
use crate::ast::{model, SortOrder, Val, Value};
use crate::ops::concat;
use crate::text::{int_text, int_to_text};

verus! {

/// Lexicographic order of character sequences: negative, zero or positive.
pub open spec fn lex_cmp(a: Seq<char>, b: Seq<char>) -> int
    decreases a.len(),
{
    if a.len() == 0 && b.len() == 0 {
        0
    } else if a.len() == 0 {
        -1
    } else if b.len() == 0 {
        1
    } else if a[0] < b[0] {
        -1
    } else if a[0] > b[0] {
        1
    } else {
        lex_cmp(a.subrange(1, a.len() as int), b.subrange(1, b.len() as int))
    }
}

/// The text a key falls back to when the two keys are of different kinds.
pub open spec fn value_text(v: Val) -> Seq<char> {
    match v {
        Val::Number(n) => int_text(n as int),
        Val::Str(s) => s,
        Val::Bool(b) => if b { "true"@ } else { "false"@ },
        Val::Null => "null"@,
        Val::List(_) => "list"@,
        Val::Dict(_) => "map"@,
        Val::Builtin(_) => "builtin_function"@,
        Val::UserFn(n, _) => "user_function_"@ + n,
    }
}

/// Order of two sort keys: numbers by value, strings lexicographically,
/// `false` before `true`, anything else by its text.
pub open spec fn cmp_vals(a: Val, b: Val) -> int {
    match (a, b) {
        (Val::Number(x), Val::Number(y)) => if x < y { -1 } else if x > y { 1 } else { 0 },
        (Val::Str(x), Val::Str(y)) => lex_cmp(x, y),
        (Val::Bool(x), Val::Bool(y)) => if x == y { 0 } else if !x { -1 } else { 1 },
        _ => lex_cmp(value_text(a), value_text(b)),
    }
}

pub proof fn lemma_lex_antisym(a: Seq<char>, b: Seq<char>)
    ensures
        lex_cmp(a, b) == -lex_cmp(b, a),
        -1 <= lex_cmp(a, b) <= 1,
    decreases a.len(),
{
    if a.len() > 0 && b.len() > 0 && a[0] == b[0] {
        lemma_lex_antisym(a.subrange(1, a.len() as int), b.subrange(1, b.len() as int));
    }
}

/// Swapping two keys flips their order.
pub proof fn lemma_cmp_antisym(a: Val, b: Val)
    ensures
        cmp_vals(a, b) == -cmp_vals(b, a),
        -1 <= cmp_vals(a, b) <= 1,
{
    lemma_lex_antisym(value_text(a), value_text(b));
    match (a, b) {
        (Val::Str(x), Val::Str(y)) => lemma_lex_antisym(x, y),
        _ => {},
    }
}

pub fn lex_compare(a: &str, b: &str) -> (r: i8)
    ensures
        r as int == lex_cmp(a@, b@),
{
    let n = a.unicode_len();
    let m = b.unicode_len();
    let mut i: usize = 0;
    assert(a@.subrange(0, n as int) =~= a@);
    assert(b@.subrange(0, m as int) =~= b@);
    while i < n && i < m
        invariant
            n == a@.len(),
            m == b@.len(),
            i <= n,
            i <= m,
            lex_cmp(a@, b@) == lex_cmp(a@.subrange(i as int, n as int), b@.subrange(i as int, m as int)),
        decreases n - i,
    {
        let x = a.get_char(i);
        let y = b.get_char(i);
        let ghost sa = a@.subrange(i as int, n as int);
        let ghost sb = b@.subrange(i as int, m as int);
        assert(sa[0] == x && sb[0] == y);
        if x < y {
            return -1;
        }
        if x > y {
            return 1;
        }
        assert(sa.subrange(1, sa.len() as int) =~= a@.subrange(i + 1, n as int));
        assert(sb.subrange(1, sb.len() as int) =~= b@.subrange(i + 1, m as int));
        i = i + 1;
    }
    if i == n && i == m {
        0
    } else if i == n {
        -1
    } else {
        1
    }
}

fn literal(s: &'static str) -> (r: String)
    ensures
        r@ == s@,
{
    s.to_owned()
}

/// The text of a key, as `cmp_vals` falls back to.
pub fn value_to_string(v: &Value) -> (r: String)
    ensures
        r@ == value_text(model(*v)),
{
    match v {
        Value::Number(n) => int_to_text(*n),
        Value::String(s) => s.clone(),
        Value::Bool(b) => if *b { literal("true") } else { literal("false") },
        Value::Null => literal("null"),
        Value::List(_) => literal("list"),
        Value::Dict(_) => literal("map"),
        Value::BuiltinFunction(_) => literal("builtin_function"),
        Value::UserFunction(f) => concat("user_function_", f.name.as_str()),
    }
}

/// Orders two sort keys: negative, zero or positive.
pub fn compare_values(a: &Value, b: &Value) -> (r: i8)
    ensures
        r as int == cmp_vals(model(*a), model(*b)),
{
    match (a, b) {
        (Value::Number(x), Value::Number(y)) => if *x < *y { -1 } else if *x > *y { 1 } else { 0 },
        (Value::String(x), Value::String(y)) => lex_compare(x.as_str(), y.as_str()),
        (Value::Bool(x), Value::Bool(y)) => if *x == *y { 0 } else if !*x { -1 } else { 1 },
        _ => {
            let ta = value_to_string(a);
            let tb = value_to_string(b);
            lex_compare(ta.as_str(), tb.as_str())
        },
    }
}

/// Rule order of two records by their sort keys: `a` may come before `b`.
pub open spec fn in_order(keys: Seq<Val>, a: int, b: int, order: SortOrder) -> bool {
    let c = cmp_vals(keys[a], keys[b]);
    match order {
        SortOrder::Asc => c < 0 || (c == 0 && a < b),
        SortOrder::Desc => c > 0 || (c == 0 && a < b),
    }
}

/// `perm` lists each of `0..n` once.
pub open spec fn is_permutation(perm: Seq<int>, n: nat) -> bool {
    &&& perm.len() == n
    &&& forall|k: int| 0 <= k < perm.len() ==> 0 <= #[trigger] perm[k] < n
    &&& forall|k: int, l: int| 0 <= k < l < perm.len() ==> perm[k] != perm[l]
}

/// Records in the order `perm` gives are sorted by `keys`, records with equal
/// keys in the order they came in.
pub open spec fn sorted_by(keys: Seq<Val>, perm: Seq<int>, order: SortOrder) -> bool {
    forall|k: int| 0 <= k < perm.len() - 1 ==> in_order(keys, #[trigger] perm[k], perm[k + 1], order)
}

fn goes_before(keys: &Vec<Value>, x: usize, y: usize, order: SortOrder) -> (r: bool)
    requires
        x < keys.len(),
        y < keys.len(),
    ensures
        r == (match order {
            SortOrder::Asc => cmp_vals(model(keys@[x as int]), model(keys@[y as int])) < 0,
            SortOrder::Desc => cmp_vals(model(keys@[x as int]), model(keys@[y as int])) > 0,
        }),
{
    let c = compare_values(&keys[x], &keys[y]);
    match order {
        SortOrder::Asc => c < 0,
        SortOrder::Desc => c > 0,
    }
}

/// Positions of the records in a stable sort by `keys`.
pub fn stable_order(keys: &Vec<Value>, order: SortOrder) -> (perm: Vec<usize>)
    ensures
        ({
            let km = Seq::new(keys.len() as nat, |j: int| model(keys@[j]));
            let p = Seq::new(perm@.len(), |k: int| perm@[k] as int);
            is_permutation(p, keys.len() as nat) && sorted_by(km, p, order)
        }),
{
    let ghost km = Seq::new(keys.len() as nat, |j: int| model(keys@[j]));
    let n = keys.len();
    let mut perm: Vec<usize> = Vec::new();
    let mut i: usize = 0;
    while i < n
        invariant
            n == keys.len(),
            km == Seq::new(keys.len() as nat, |j: int| model(keys@[j])),
            i <= n,
            perm@.len() == i,
            forall|k: int| 0 <= k < i ==> (#[trigger] perm@[k]) < i,
            forall|k: int, l: int| 0 <= k < l < i ==> perm@[k] != perm@[l],
            forall|k: int| 0 <= k < i - 1 ==> in_order(km, #[trigger] perm@[k] as int, perm@[k + 1] as int, order),
        decreases n - i,
    {
        let mut j: usize = i;
        while j > 0 && goes_before(keys, i, perm[j - 1], order)
            invariant
                n == keys.len(),
                km == Seq::new(keys.len() as nat, |j: int| model(keys@[j])),
                i < n,
                j <= i,
                perm@.len() == i,
                forall|k: int| 0 <= k < i ==> (#[trigger] perm@[k]) < i,
                j < i ==> (match order {
                    SortOrder::Asc => cmp_vals(km[i as int], km[perm@[j as int] as int]) < 0,
                    SortOrder::Desc => cmp_vals(km[i as int], km[perm@[j as int] as int]) > 0,
                }),
            decreases j,
        {
            j = j - 1;
        }
        let ghost old_perm = perm@;
        perm.insert(j, i);
        proof {
            let np = perm@;
            assert(np =~= old_perm.insert(j as int, i));
            if j > 0 {
                lemma_cmp_antisym(km[i as int], km[old_perm[j - 1] as int]);
                assert(in_order(km, np[j - 1] as int, np[j as int] as int, order));
            }
            if j < i {
                assert(in_order(km, np[j as int] as int, np[j + 1] as int, order));
            }
            assert forall|k: int| 0 <= k < i + 1 - 1 implies in_order(km, #[trigger] np[k] as int, np[k + 1] as int, order) by {
                if k < j - 1 {
                    assert(np[k] == old_perm[k] && np[k + 1] == old_perm[k + 1]);
                } else if k > j {
                    assert(np[k] == old_perm[k - 1] && np[k + 1] == old_perm[k]);
                }
            };
            assert forall|k: int, l: int| 0 <= k < l < i + 1 implies np[k] != np[l] by {
                if k < j && l < j {
                } else if k < j && l == j {
                } else if k < j {
                    assert(np[l] == old_perm[l - 1]);
                } else if k == j {
                    assert(np[l] == old_perm[l - 1]);
                } else {
                    assert(np[k] == old_perm[k - 1] && np[l] == old_perm[l - 1]);
                }
            };
        }
        i = i + 1;
    }
    let ghost p = Seq::new(perm@.len(), |k: int| perm@[k] as int);
    assert(sorted_by(km, p, order)) by {
        assert forall|k: int| 0 <= k < p.len() - 1 implies in_order(km, #[trigger] p[k], p[k + 1], order) by {
            assert(in_order(km, perm@[k] as int, perm@[k + 1] as int, order));
        };
    };
    perm
}

} // verus!
