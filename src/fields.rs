//! Name/value tables (headers, query parameters) kept sorted by name, so that
//! each name occurs once and rendering walks the names in lexicographic order.
use vstd::prelude::*;
use crate::text::{chars_eq, chars_of};

verus! {

/// Lexicographic order on character sequences, by code point.
pub open spec fn lex_lt(a: Seq<char>, b: Seq<char>) -> bool
    decreases a.len(),
{
    if a.len() == 0 {
        b.len() > 0
    } else if b.len() == 0 {
        false
    } else if a[0] != b[0] {
        a[0] < b[0]
    } else {
        lex_lt(a.drop_first(), b.drop_first())
    }
}

/// Names strictly increase along the table.
pub open spec fn sorted_names(s: Seq<(Seq<char>, Seq<char>)>) -> bool {
    forall|i: int, j: int| 0 <= i < j < s.len() ==> lex_lt(#[trigger] s[i].0, #[trigger] s[j].0)
}

/// The view of a table as a map from name to value.
pub open spec fn fields_map(s: Seq<(Seq<char>, Seq<char>)>) -> Map<Seq<char>, Seq<char>> {
    Map::new(
        |k: Seq<char>| exists|i: int| 0 <= i < s.len() && s[i].0 == k,
        |k: Seq<char>| s[choose|i: int| 0 <= i < s.len() && s[i].0 == k].1,
    )
}

/// The view of a table of strings.
pub open spec fn fields_view(v: Seq<(String, String)>) -> Seq<(Seq<char>, Seq<char>)> {
    Seq::new(v.len(), |i: int| (v[i].0@, v[i].1@))
}

/// No name comes before itself.
pub proof fn lemma_lex_irreflexive(a: Seq<char>)
    ensures
        !lex_lt(a, a),
    decreases a.len(),
{
    if a.len() > 0 {
        lemma_lex_irreflexive(a.drop_first());
    }
}

/// Of two different names, one comes first.
pub proof fn lemma_lex_total(a: Seq<char>, b: Seq<char>)
    ensures
        a == b || lex_lt(a, b) || lex_lt(b, a),
    decreases a.len(),
{
    if a.len() > 0 && b.len() > 0 && a[0] == b[0] {
        lemma_lex_total(a.drop_first(), b.drop_first());
        if a.drop_first() == b.drop_first() {
            assert(a == seq![a[0]] + a.drop_first());
            assert(b == seq![b[0]] + b.drop_first());
        }
    }
    if a.len() == 0 && b.len() == 0 {
        assert(a == b);
    }
}

/// The order is transitive.
pub proof fn lemma_lex_trans(a: Seq<char>, b: Seq<char>, c: Seq<char>)
    requires
        lex_lt(a, b),
        lex_lt(b, c),
    ensures
        lex_lt(a, c),
    decreases a.len(),
{
    if a.len() > 0 && b.len() > 0 && c.len() > 0 && a[0] == b[0] && b[0] == c[0] {
        lemma_lex_trans(a.drop_first(), b.drop_first(), c.drop_first());
    }
}

/// Whether `a` comes strictly before `b`.
pub fn lex_less(a: &[char], b: &[char]) -> (r: bool)
    ensures
        r == lex_lt(a@, b@),
{
    let mut i: usize = 0;
    assert(a@.subrange(0, a@.len() as int) == a@);
    assert(b@.subrange(0, b@.len() as int) == b@);
    while i < a.len() && i < b.len() && a[i] == b[i]
        invariant
            0 <= i <= a@.len(),
            i <= b@.len(),
            lex_lt(a@, b@) == lex_lt(a@.subrange(i as int, a@.len() as int), b@.subrange(i as int, b@.len() as int)),
        decreases a.len() - i,
    {
        let ghost sa = a@.subrange(i as int, a@.len() as int);
        let ghost sb = b@.subrange(i as int, b@.len() as int);
        assert(sa.drop_first() == a@.subrange(i + 1, a@.len() as int));
        assert(sb.drop_first() == b@.subrange(i + 1, b@.len() as int));
        i += 1;
    }
    let ghost sa = a@.subrange(i as int, a@.len() as int);
    let ghost sb = b@.subrange(i as int, b@.len() as int);
    if i == a.len() {
        i < b.len()
    } else if i == b.len() {
        false
    } else {
        assert(sa[0] == a@[i as int] && sb[0] == b@[i as int]);
        a[i] < b[i]
    }
}

/// The value stored under `name`, if any.
pub fn lookup<'a>(t: &'a Vec<(String, String)>, name: &str) -> (r: Option<&'a String>)
    requires
        sorted_names(fields_view(t@)),
    ensures
        fields_map(fields_view(t@)).dom().contains(name@) == (r is Some),
        r matches Some(v) ==> fields_map(fields_view(t@))[name@] == v@,
{
    let ghost s = fields_view(t@);
    let k = chars_of(name);
    let mut i: usize = 0;
    while i < t.len()
        invariant
            s == fields_view(t@),
            sorted_names(s),
            k@ == name@,
            0 <= i <= t@.len(),
            forall|j: int| 0 <= j < i ==> s[j].0 != name@,
        decreases t.len() - i,
    {
        let c = chars_of(t[i].0.as_str());
        if chars_eq(&c, &k) {
            proof {
                assert(s[i as int].0 == name@);
                let j = choose|j: int| 0 <= j < s.len() && s[j].0 == name@;
                if j != i {
                    if j < i {
                        assert(lex_lt(s[j].0, s[i as int].0));
                    } else {
                        assert(lex_lt(s[i as int].0, s[j].0));
                    }
                    lemma_lex_irreflexive(name@);
                }
            }
            return Some(&t[i].1);
        }
        i += 1;
    }
    None
}

/// Stores `value` under `name`, replacing a value already there.
pub fn upsert(t: &mut Vec<(String, String)>, name: String, value: String)
    requires
        sorted_names(fields_view(old(t)@)),
    ensures
        sorted_names(fields_view(final(t)@)),
        fields_map(fields_view(final(t)@)) == fields_map(fields_view(old(t)@)).insert(name@, value@),
{
    let ghost s = fields_view(t@);
    let ghost k = name@;
    let kc = chars_of(name.as_str());
    let mut i: usize = 0;
    while i < t.len()
        invariant
            s == fields_view(t@),
            kc@ == k,
            0 <= i <= t@.len(),
            forall|j: int| 0 <= j < i ==> lex_lt(#[trigger] s[j].0, k),
        ensures
            0 <= i <= t@.len(),
            forall|j: int| 0 <= j < i ==> lex_lt(#[trigger] s[j].0, k),
            i < t@.len() ==> !lex_lt(s[i as int].0, k),
        decreases t.len() - i,
    {
        let c = chars_of(t[i].0.as_str());
        if !lex_less(&c, &kc) {
            break;
        }
        i += 1;
    }
    let ghost m0 = fields_map(s);
    if i < t.len() && chars_eq(&chars_of(t[i].0.as_str()), &kc) {
        t.set(i, (name, value));
        proof {
            let s2 = fields_view(t@);
            assert(s2 == s.update(i as int, (k, value@)));
            assert forall|a: int, b: int| 0 <= a < b < s2.len() implies lex_lt(#[trigger] s2[a].0, #[trigger] s2[b].0) by {
                assert(lex_lt(s[a].0, s[b].0));
            }
            let m2 = fields_map(s2);
            assert forall|q: Seq<char>| #[trigger] m2.dom().contains(q) == m0.insert(k, value@).dom().contains(q) by {
                if q != k && m0.dom().contains(q) {
                    let j = choose|j: int| 0 <= j < s.len() && s[j].0 == q;
                    assert(s2[j].0 == q);
                }
                if q == k {
                    assert(s2[i as int].0 == q);
                }
            }
            assert forall|q: Seq<char>| m2.dom().contains(q) implies #[trigger] m2[q] == m0.insert(k, value@)[q] by {
                let j2 = choose|j: int| 0 <= j < s2.len() && s2[j].0 == q;
                lemma_lex_irreflexive(q);
                if q == k {
                    if j2 < i {
                        assert(lex_lt(s2[j2].0, s2[i as int].0));
                    } else if j2 > i {
                        assert(lex_lt(s2[i as int].0, s2[j2].0));
                    }
                } else {
                    assert(s2[j2] == s[j2]);
                    assert(m0.dom().contains(q));
                    let j = choose|j: int| 0 <= j < s.len() && s[j].0 == q;
                    if j < j2 {
                        assert(lex_lt(s[j].0, s[j2].0));
                    } else if j > j2 {
                        assert(lex_lt(s[j2].0, s[j].0));
                    }
                }
            }
            assert(m2 == m0.insert(k, value@));
        }
    } else {
        t.insert(i, (name, value));
        proof {
            let s2 = fields_view(t@);
            assert(s2 == s.insert(i as int, (k, value@)));
            if i < s.len() {
                let c = s[i as int].0;
                lemma_lex_total(c, k);
                assert(lex_lt(k, c));
            }
            assert forall|a: int, b: int| 0 <= a < b < s2.len() implies lex_lt(#[trigger] s2[a].0, #[trigger] s2[b].0) by {
                if b < i {
                    assert(lex_lt(s[a].0, s[b].0));
                } else if b == i {
                } else if a < i {
                    assert(s2[b].0 == s[b - 1].0);
                    if b - 1 > i {
                        assert(lex_lt(s[i as int].0, s[b - 1].0));
                        lemma_lex_trans(k, s[i as int].0, s[b - 1].0);
                    }
                    lemma_lex_trans(s[a].0, k, s[b - 1].0);
                } else if a == i {
                    if b - 1 > i {
                        assert(lex_lt(s[i as int].0, s[b - 1].0));
                        lemma_lex_trans(k, s[i as int].0, s[b - 1].0);
                    }
                } else {
                    assert(lex_lt(s[a - 1].0, s[b - 1].0));
                }
            }
            let m2 = fields_map(s2);
            assert forall|q: Seq<char>| #[trigger] m2.dom().contains(q) == m0.insert(k, value@).dom().contains(q) by {
                if q != k && m0.dom().contains(q) {
                    let j = choose|j: int| 0 <= j < s.len() && s[j].0 == q;
                    if j < i {
                        assert(s2[j].0 == q);
                    } else {
                        assert(s2[j + 1].0 == q);
                    }
                }
                if q == k {
                    assert(s2[i as int].0 == q);
                }
                if m2.dom().contains(q) && q != k {
                    let j2 = choose|j: int| 0 <= j < s2.len() && s2[j].0 == q;
                    if j2 < i {
                        assert(s[j2].0 == q);
                    } else if j2 > i {
                        assert(s[j2 - 1].0 == q);
                    }
                }
            }
            assert forall|q: Seq<char>| m2.dom().contains(q) implies #[trigger] m2[q] == m0.insert(k, value@)[q] by {
                let j2 = choose|j: int| 0 <= j < s2.len() && s2[j].0 == q;
                if q == k {
                    if j2 != i {
                        lemma_lex_irreflexive(k);
                    }
                } else {
                    let j = choose|j: int| 0 <= j < s.len() && s[j].0 == q;
                    let jj = if j < i { j } else { j + 1 };
                    assert(s2[jj].0 == q);
                    if jj != j2 {
                        lemma_lex_irreflexive(q);
                    }
                }
            }
            assert(m2 == m0.insert(k, value@));
        }
    }
}

} // verus!
